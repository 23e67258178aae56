//! Mapping field paths onto header columns by their leaf name.

use vstd::prelude::*;
use crate::mapping::{
    first_match, header_map, lemma_first_match_found, lemma_first_match_none, FieldMapping,
};
use crate::text::{leaf_of, split_dots_str};

verus! {

/// The position of the first header cell equal to `name`.
pub(crate) fn position_of(headers: &Vec<String>, name: &String) -> (r: Option<usize>)
    ensures
        match r {
            Some(i) => first_match(headers.deep_view(), name@) == i as int,
            None => first_match(headers.deep_view(), name@) == -1,
        },
{
    let n = headers.len();
    let mut i: usize = 0;
    while i < n
        invariant
            i <= n,
            n == headers@.len(),
            forall|j: int| 0 <= j < i ==> headers.deep_view()[j] != name@,
        decreases n - i,
    {
        if headers[i] == *name {
            proof {
                lemma_first_match_found(headers.deep_view(), name@, i as int);
            }
            return Some(i);
        }
        i += 1;
    }
    proof {
        lemma_first_match_none(headers.deep_view(), name@);
    }
    None
}

/// The last dot-delimited segment of a path.
pub(crate) fn leaf_name(field: &String) -> (leaf: String)
    ensures
        leaf@ == leaf_of(field@),
{
    let mut parts = split_dots_str(field.as_str());
    let n = parts.len();
    proof {
        assert(parts.deep_view()[n - 1] == parts.deep_view().last());
    }
    let leaf = parts.remove(n - 1);
    leaf
}

/// Maps each path whose leaf name appears in `headers` to the first
/// matching column; paths without a match are left unmapped.
pub fn map_fields_to_columns(fields: &Vec<String>, headers: &Vec<String>) -> (mapping:
    FieldMapping)
    ensures
        mapping@ == header_map(fields.deep_view(), headers.deep_view()),
        mapping.wf(),
{
    let ghost fv = fields.deep_view();
    let ghost hv = headers.deep_view();
    let mut mapping = FieldMapping::new();
    let n = fields.len();
    let mut i: usize = 0;
    proof {
        assert(fv.take(0) =~= Seq::<Seq<char>>::empty());
    }
    while i < n
        invariant
            i <= n,
            n == fields@.len(),
            fv == fields.deep_view(),
            hv == headers.deep_view(),
            mapping@ == header_map(fv.take(i as int), hv),
            mapping.wf(),
        decreases n - i,
    {
        let leaf = leaf_name(&fields[i]);
        proof {
            assert(fv.take(i as int + 1).drop_last() =~= fv.take(i as int));
            assert(fv.take(i as int + 1).last() == fv[i as int]);
            assert(fields@[i as int]@ == fv[i as int]);
        }
        match position_of(headers, &leaf) {
            Some(pos) => {
                mapping.insert(fields[i].clone(), pos);
            },
            None => {},
        }
        proof {
            assert(mapping@ == header_map(fv.take(i as int + 1), hv));
        }
        i += 1;
    }
    proof {
        assert(fv.take(n as int) =~= fv);
    }
    mapping
}

} // verus!
