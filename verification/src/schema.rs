//! The schema tree and its flattening into ordered dotted field paths.

use vstd::prelude::*;
use crate::field_mapper::{leaf_name, position_of};
use crate::mapping::{
    header_invalids, header_map, headerless_map, insert_entry, invalid_fields_spec,
    map_columns_spec, FieldMapping,
};
use crate::text::extend_prefix;

verus! {

/// One node of a field schema: either a single field (a leaf) or a
/// named group of further nodes, in the group's own order.
pub enum SchemaNode {
    Scalar,
    Group(Vec<(String, SchemaNode)>),
}

/// The dotted paths of all leaves below `node`, in depth-first order,
/// each beginning with `prefix`.
pub open spec fn leaf_paths(node: SchemaNode, prefix: Seq<char>) -> Seq<Seq<char>>
    decreases node,
{
    match node {
        SchemaNode::Scalar => seq![prefix],
        SchemaNode::Group(entries) => group_leaf_paths(entries@, prefix),
    }
}

/// The leaf paths of a group's children, child by child.
pub open spec fn group_leaf_paths(entries: Seq<(String, SchemaNode)>, prefix: Seq<char>) -> Seq<
    Seq<char>,
>
    decreases entries,
{
    if entries.len() == 0 {
        Seq::<Seq<char>>::empty()
    } else {
        leaf_paths(entries[0].1, extend_prefix(prefix, entries[0].0@)) + group_leaf_paths(
            entries.drop_first(),
            prefix,
        )
    }
}

/// How many leaves the tree below `node` holds.
pub open spec fn leaf_count(node: SchemaNode) -> nat
    decreases node,
{
    match node {
        SchemaNode::Scalar => 1,
        SchemaNode::Group(entries) => group_leaf_count(entries@),
    }
}

pub open spec fn group_leaf_count(entries: Seq<(String, SchemaNode)>) -> nat
    decreases entries,
{
    if entries.len() == 0 {
        0
    } else {
        leaf_count(entries[0].1) + group_leaf_count(entries.drop_first())
    }
}

/// Flattening visits every leaf exactly once: the paths produced for a
/// tree are exactly as many as its leaves, whatever the prefix.
pub proof fn lemma_flatten_counts_leaves(node: SchemaNode, prefix: Seq<char>)
    ensures
        leaf_paths(node, prefix).len() == leaf_count(node),
    decreases node,
{
    match node {
        SchemaNode::Scalar => {},
        SchemaNode::Group(entries) => {
            lemma_group_flatten_counts_leaves(entries@, prefix);
        },
    }
}

pub proof fn lemma_group_flatten_counts_leaves(
    entries: Seq<(String, SchemaNode)>,
    prefix: Seq<char>,
)
    ensures
        group_leaf_paths(entries, prefix).len() == group_leaf_count(entries),
    decreases entries,
{
    if entries.len() == 0 {
    } else {
        lemma_flatten_counts_leaves(entries[0].1, extend_prefix(prefix, entries[0].0@));
        lemma_group_flatten_counts_leaves(entries.drop_first(), prefix);
    }
}

/// A group's flattening splits at any child boundary.
proof fn lemma_group_leaf_paths_take_step(
    entries: Seq<(String, SchemaNode)>,
    prefix: Seq<char>,
    i: int,
)
    requires
        0 <= i < entries.len(),
    ensures
        group_leaf_paths(entries.take(i + 1), prefix) == group_leaf_paths(entries.take(i), prefix)
            + leaf_paths(entries[i].1, extend_prefix(prefix, entries[i].0@)),
    decreases i,
{
    let a = entries.take(i + 1);
    if i == 0 {
        assert(a.drop_first() =~= entries.take(0));
        assert(group_leaf_paths(entries.take(0), prefix) =~= Seq::<Seq<char>>::empty());
        assert(group_leaf_paths(a, prefix) =~~= group_leaf_paths(entries.take(0), prefix)
            + leaf_paths(entries[0].1, extend_prefix(prefix, entries[0].0@)));
    } else {
        let t = entries.drop_first();
        lemma_group_leaf_paths_take_step(t, prefix, i - 1);
        assert(a.drop_first() =~= t.take(i));
        assert(entries.take(i).drop_first() =~= t.take(i - 1));
        assert(t.take(i)[i - 1] == entries[i]);
        let head = leaf_paths(entries[0].1, extend_prefix(prefix, entries[0].0@));
        assert(group_leaf_paths(a, prefix) =~~= head + group_leaf_paths(t.take(i), prefix));
        assert(group_leaf_paths(entries.take(i), prefix) =~~= head + group_leaf_paths(
            t.take(i - 1),
            prefix,
        ));
        assert(head + (group_leaf_paths(t.take(i - 1), prefix) + leaf_paths(
            entries[i].1,
            extend_prefix(prefix, entries[i].0@),
        )) =~~= (head + group_leaf_paths(t.take(i - 1), prefix)) + leaf_paths(
            entries[i].1,
            extend_prefix(prefix, entries[i].0@),
        ));
    }
}

/// Walks the schema depth-first and appends to `fields` one dotted path
/// per leaf, in the schema's own order, each starting from `prefix`.
pub fn extract_fields(schema: &SchemaNode, prefix: &str, fields: &mut Vec<String>)
    ensures
        final(fields).deep_view() == old(fields).deep_view() + leaf_paths(*schema, prefix@),
    decreases *schema,
{
    match schema {
        SchemaNode::Scalar => {
            let path = prefix.to_owned();
            proof {
                assert(final(fields).deep_view().push(path@) =~~= final(fields).deep_view() + seq![
                    prefix@,
                ]);
            }
            fields.push(path);
        },
        SchemaNode::Group(entries) => {
            let n = entries.len();
            let mut i: usize = 0;
            proof {
                assert(entries@.take(0) =~= Seq::<(String, SchemaNode)>::empty());
                assert(fields.deep_view() + Seq::<Seq<char>>::empty() =~~= fields.deep_view());
            }
            while i < n
                invariant
                    i <= n,
                    n == entries@.len(),
                    *schema == SchemaNode::Group(*entries),
                    fields.deep_view() == old(fields).deep_view() + group_leaf_paths(
                        entries@.take(i as int),
                        prefix@,
                    ),
                decreases n - i,
            {
                let key = &entries[i].0;
                let new_prefix: String;
                if prefix.is_empty() {
                    new_prefix = key.clone();
                } else {
                    let mut p = prefix.to_owned();
                    p.append(".");
                    p.append(key.as_str());
                    new_prefix = p;
                }
                assert(new_prefix@ == extend_prefix(prefix@, entries@[i as int].0@));
                let ghost fields_before = fields.deep_view();
                proof {
                    assert(decreases_to!(*schema => schema->Group_0));
                    assert(schema->Group_0 == *entries);
                    assert(decreases_to!(*entries => entries@));
                    assert(decreases_to!(entries@ => entries@[i as int]));
                    assert(decreases_to!(entries@[i as int] => entries@[i as int].1));
                }
                extract_fields(&entries[i].1, new_prefix.as_str(), fields);
                proof {
                    lemma_group_leaf_paths_take_step(entries@, prefix@, i as int);
                    assert(fields.deep_view() =~~= old(fields).deep_view() + group_leaf_paths(
                        entries@.take(i as int + 1),
                        prefix@,
                    ));
                }
                i += 1;
            }
            proof {
                assert(entries@.take(n as int) =~= entries@);
            }
        },
    }
}

/// Maps each field path to a zero-based column index.  With an empty
/// header every path is mapped to its own position and nothing is
/// invalid; with a header each path goes to the first cell matching its
/// leaf name, and paths without a match are appended to `invalids` and
/// left out of the mapping.
pub fn map_fields_to_columns(
    fields: &Vec<String>,
    headers: &Vec<String>,
    invalids: &mut Vec<String>,
) -> (mapping: FieldMapping)
    ensures
        mapping@ == map_columns_spec(fields.deep_view(), headers.deep_view()),
        final(invalids).deep_view() == old(invalids).deep_view() + invalid_fields_spec(
            fields.deep_view(),
            headers.deep_view(),
        ),
        mapping.wf(),
{
    let ghost fv = fields.deep_view();
    let ghost hv = headers.deep_view();
    let mut mapping = FieldMapping::new();
    let n = fields.len();
    if headers.is_empty() {
        let mut i: usize = 0;
        proof {
            assert(fv.take(0) =~= Seq::<Seq<char>>::empty());
            assert(old(invalids).deep_view() + invalid_fields_spec(fv, hv) =~~= old(
                invalids,
            ).deep_view());
        }
        while i < n
            invariant
                i <= n,
                n == fields@.len(),
                fv == fields.deep_view(),
                mapping@ == headerless_map(fv.take(i as int)),
                mapping.wf(),
            decreases n - i,
        {
            proof {
                assert(fv.take(i as int + 1).drop_last() =~= fv.take(i as int));
                assert(fv.take(i as int + 1).last() == fv[i as int]);
                assert(fields@[i as int]@ == fv[i as int]);
            }
            mapping.insert(fields[i].clone(), i);
            proof {
                assert(mapping@ == headerless_map(fv.take(i as int + 1)));
            }
            i += 1;
        }
        proof {
            assert(fv.take(n as int) =~= fv);
        }
    } else {
        let mut i: usize = 0;
        proof {
            assert(fv.take(0) =~= Seq::<Seq<char>>::empty());
            assert(invalids.deep_view() + header_invalids(fv.take(0), hv)
                =~~= invalids.deep_view());
        }
        while i < n
            invariant
                i <= n,
                n == fields@.len(),
                fv == fields.deep_view(),
                hv == headers.deep_view(),
                hv.len() > 0,
                mapping@ == header_map(fv.take(i as int), hv),
                invalids.deep_view() == old(invalids).deep_view() + header_invalids(
                    fv.take(i as int),
                    hv,
                ),
                mapping.wf(),
            decreases n - i,
        {
            let leaf = leaf_name(&fields[i]);
            proof {
                assert(fv.take(i as int + 1).drop_last() =~= fv.take(i as int));
                assert(fv.take(i as int + 1).last() == fv[i as int]);
                assert(fields@[i as int]@ == fv[i as int]);
            }
            match position_of(headers, &leaf) {
                Some(pos) => {
                    mapping.insert(fields[i].clone(), pos);
                },
                None => {
                    let ghost before = invalids.deep_view();
                    invalids.push(fields[i].clone());
                    proof {
                        assert(invalids.deep_view() =~~= before.push(fv[i as int]));
                        assert(before.push(fv[i as int]) =~~= old(invalids).deep_view()
                            + header_invalids(fv.take(i as int + 1), hv));
                    }
                },
            }
            proof {
                assert(mapping@ == header_map(fv.take(i as int + 1), hv));
                assert(invalids.deep_view() == old(invalids).deep_view() + header_invalids(
                    fv.take(i as int + 1),
                    hv,
                ));
            }
            i += 1;
        }
        proof {
            assert(fv.take(n as int) =~= fv);
        }
    }
    mapping
}

} // verus!
