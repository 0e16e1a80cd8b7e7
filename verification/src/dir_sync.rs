//! Directory-mode synchronization helpers: traversing a schema to map file
//! paths to document ids. Fetching the nested schemas of document-backed
//! directories is the sync client's work; the walk here reports them as
//! mounts for the caller to re-enter.

use vstd::prelude::*;

use crate::fs::{spec_child_path, entries_view, entry_view, FsEntry, FsEntryModel};

verus! {

#[via_fn]
proof fn spec_paths_of_entry_dec(e: FsEntryModel, prefix: Seq<char>) {
    match e {
        FsEntryModel::Dir { entries, .. } => match entries {
            Some(children) => {
                assert(decreases_to!(e => entries));
                assert(decreases_to!(entries => children));
            },
            None => {},
        },
        _ => {},
    }
}

/// The file paths below an entry, each with its explicit node id if set.
/// Document-backed directories are not entered.
pub open spec fn spec_paths_of_entry(e: FsEntryModel, prefix: Seq<char>) -> Seq<
    (Seq<char>, Option<Seq<char>>),
>
    decreases e, 0int,
    via spec_paths_of_entry_dec
{
    match e {
        FsEntryModel::Doc { node_id, .. } => seq![(prefix, node_id)],
        FsEntryModel::Dir { entries, .. } => match entries {
            None => Seq::empty(),
            Some(children) => spec_paths_of_children(children, prefix),
        },
    }
}

/// The file paths below a directory's children, in order.
pub open spec fn spec_paths_of_children(
    children: Seq<(Seq<char>, FsEntryModel)>,
    prefix: Seq<char>,
) -> Seq<(Seq<char>, Option<Seq<char>>)>
    decreases children, 1int,
{
    if children.len() == 0 {
        Seq::empty()
    } else {
        spec_paths_of_entry(children[0].1, spec_child_path(prefix, children[0].0))
            + spec_paths_of_children(children.drop_first(), prefix)
    }
}

/// The model of an accumulated path list.
pub open spec fn paths_view(s: Seq<(String, Option<String>)>) -> Seq<
    (Seq<char>, Option<Seq<char>>),
> {
    Seq::new(s.len(), |i: int| (s[i].0@, crate::fs::opt_str_view(s[i].1)))
}

/// Recursively collect file paths from an entry, including the explicit
/// node id where one is set.
pub fn collect_paths_from_entry(
    entry: &FsEntry,
    prefix: &str,
    paths: &mut Vec<(String, Option<String>)>,
)
    ensures
        paths_view(final(paths)@) == paths_view(old(paths)@) + spec_paths_of_entry(
            entry_view(*entry),
            prefix@,
        ),
    decreases *entry,
{
    match entry {
        FsEntry::Doc { node_id, .. } => {
            let nid = match node_id {
                Some(n) => Some(n.clone()),
                None => None,
            };
            let ghost before = paths@;
            paths.push((String::from_str(prefix), nid));
            proof {
                assert(paths_view(final(paths)@) =~= paths_view(before) + spec_paths_of_entry(
                    entry_view(*entry),
                    prefix@,
                ));
            }
        },
        FsEntry::Dir { entries, .. } => {
            let children = match entries {
                Some(c) => c,
                None => {
                    proof {
                        assert(paths_view(paths@) + Seq::<
                            (Seq<char>, Option<Seq<char>>),
                        >::empty() =~= paths_view(paths@));
                    }
                    return ;
                },
            };
            let ghost cm = entries_view(children@);
            let ghost base = paths_view(old(paths)@);
            proof {
                crate::fs::lemma_entries_view_index(children@);
                assert(cm.subrange(0, cm.len() as int) =~= cm);
                assert(spec_paths_of_entry(entry_view(*entry), prefix@)
                    == spec_paths_of_children(cm, prefix@));
            }
            let ghost mut done: Seq<(Seq<char>, Option<Seq<char>>)> = Seq::empty();
            proof {
                assert(base + done =~= base);
            }
            let mut k: usize = 0;
            while k < children.len()
                invariant
                    k <= children@.len(),
                    cm == entries_view(children@),
                    cm.len() == children@.len(),
                    *entry is Dir,
                    entry->Dir_entries == Some(*children),
                    forall|i: int|
                        0 <= i < children@.len() ==> cm[i] == (
                            children@[i].0@,
                            entry_view(children@[i].1),
                        ),
                    paths_view(paths@) == base + done,
                    spec_paths_of_children(cm, prefix@) == done + spec_paths_of_children(
                        cm.subrange(k as int, cm.len() as int),
                        prefix@,
                    ),
                decreases children@.len() - k,
            {
                let ghost rest = cm.subrange(k as int, cm.len() as int);
                proof {
                    assert(rest[0] == cm[k as int]);
                    assert(rest.drop_first() =~= cm.subrange(k as int + 1, cm.len() as int));
                    assert(decreases_to!(*entry => entry->Dir_entries));
                    assert(decreases_to!(entry->Dir_entries => entry->Dir_entries->0));
                    assert(entry->Dir_entries->0 == *children);
                    assert(decreases_to!(*children => children@));
                    assert(decreases_to!(children@ => children@[k as int]));
                    assert(decreases_to!(children@[k as int] => children@[k as int].1));
                }
                let child_path: String = if prefix.is_empty() {
                    children[k].0.clone()
                } else {
                    let head = crate::text::concat_strs(prefix, "/");
                    crate::text::concat_strs(head.as_str(), children[k].0.as_str())
                };
                proof {
                    assert(child_path@ == spec_child_path(prefix@, cm[k as int].0));
                }
                collect_paths_from_entry(&children[k].1, child_path.as_str(), paths);
                proof {
                    let step = spec_paths_of_entry(cm[k as int].1, child_path@);
                    let done_old = done;
                    done = done + step;
                    assert((base + done_old) + step =~= base + (done_old + step));
                    assert(done_old + (step + spec_paths_of_children(
                        rest.drop_first(),
                        prefix@,
                    )) =~= done + spec_paths_of_children(rest.drop_first(), prefix@));
                }
                k = k + 1;
            }
            proof {
                assert(cm.subrange(k as int, cm.len() as int) =~= Seq::empty());
                assert(done + Seq::<(Seq<char>, Option<Seq<char>>)>::empty() =~= done);
            }
        },
    }
}

#[via_fn]
proof fn spec_mounts_of_entry_dec(e: FsEntryModel, prefix: Seq<char>) {
    match e {
        FsEntryModel::Dir { entries, .. } => match entries {
            Some(children) => {
                assert(decreases_to!(e => entries));
                assert(decreases_to!(entries => children));
            },
            None => {},
        },
        _ => {},
    }
}

/// The identified files below an entry (paths whose document carries an
/// explicit node id) and its mounts: the document-backed directories whose
/// nested schemas the caller must fetch and re-enter at the given paths.
pub open spec fn spec_mounts_of_entry(e: FsEntryModel, prefix: Seq<char>) -> (Seq<
    (Seq<char>, Seq<char>),
>, Seq<(Seq<char>, Seq<char>)>)
    decreases e, 0int,
    via spec_mounts_of_entry_dec
{
    match e {
        FsEntryModel::Doc { node_id, .. } => match node_id {
            Some(id) => (seq![(prefix, id)], Seq::empty()),
            None => (Seq::empty(), Seq::empty()),
        },
        FsEntryModel::Dir { node_id, entries, .. } => match entries {
            None => match node_id {
                Some(id) => (Seq::empty(), seq![(prefix, id)]),
                None => (Seq::empty(), Seq::empty()),
            },
            Some(children) => spec_mounts_of_children(children, prefix),
        },
    }
}

/// The identified files and mounts below a directory's children.
pub open spec fn spec_mounts_of_children(
    children: Seq<(Seq<char>, FsEntryModel)>,
    prefix: Seq<char>,
) -> (Seq<(Seq<char>, Seq<char>)>, Seq<(Seq<char>, Seq<char>)>)
    decreases children, 1int,
{
    if children.len() == 0 {
        (Seq::empty(), Seq::empty())
    } else {
        let first = spec_mounts_of_entry(children[0].1, spec_child_path(prefix, children[0].0));
        let rest = spec_mounts_of_children(children.drop_first(), prefix);
        (first.0 + rest.0, first.1 + rest.1)
    }
}

/// The model of a path/id pair list.
pub open spec fn pairs_view(s: Seq<(String, String)>) -> Seq<(Seq<char>, Seq<char>)> {
    Seq::new(s.len(), |i: int| (s[i].0@, s[i].1@))
}

/// Collect the identified file paths below an entry and the mounts to
/// re-enter: the sync client fetches each mount's schema and walks it with
/// the mount path as prefix, building the complete path-to-id map.
pub fn collect_paths_and_mounts(
    entry: &FsEntry,
    prefix: &str,
    ids: &mut Vec<(String, String)>,
    mounts: &mut Vec<(String, String)>,
)
    ensures
        pairs_view(final(ids)@) == pairs_view(old(ids)@) + spec_mounts_of_entry(
            entry_view(*entry),
            prefix@,
        ).0,
        pairs_view(final(mounts)@) == pairs_view(old(mounts)@) + spec_mounts_of_entry(
            entry_view(*entry),
            prefix@,
        ).1,
    decreases *entry,
{
    match entry {
        FsEntry::Doc { node_id, .. } => {
            match node_id {
                Some(id) => {
                    let ghost before = ids@;
                    ids.push((String::from_str(prefix), id.clone()));
                    proof {
                        assert(pairs_view(final(ids)@) =~= pairs_view(before)
                            + spec_mounts_of_entry(entry_view(*entry), prefix@).0);
                        assert(pairs_view(mounts@) + Seq::<(Seq<char>, Seq<char>)>::empty()
                            =~= pairs_view(mounts@));
                    }
                },
                None => {
                    proof {
                        assert(pairs_view(ids@) + Seq::<(Seq<char>, Seq<char>)>::empty()
                            =~= pairs_view(ids@));
                        assert(pairs_view(mounts@) + Seq::<(Seq<char>, Seq<char>)>::empty()
                            =~= pairs_view(mounts@));
                    }
                },
            }
        },
        FsEntry::Dir { node_id, entries, .. } => {
            let children = match entries {
                Some(c) => c,
                None => {
                    match node_id {
                        Some(id) => {
                            let ghost before = mounts@;
                            mounts.push((String::from_str(prefix), id.clone()));
                            proof {
                                assert(pairs_view(final(mounts)@) =~= pairs_view(before)
                                    + spec_mounts_of_entry(entry_view(*entry), prefix@).1);
                                assert(pairs_view(ids@) + Seq::<
                                    (Seq<char>, Seq<char>),
                                >::empty() =~= pairs_view(ids@));
                            }
                        },
                        None => {
                            proof {
                                assert(pairs_view(ids@) + Seq::<
                                    (Seq<char>, Seq<char>),
                                >::empty() =~= pairs_view(ids@));
                                assert(pairs_view(mounts@) + Seq::<
                                    (Seq<char>, Seq<char>),
                                >::empty() =~= pairs_view(mounts@));
                            }
                        },
                    }
                    return ;
                },
            };
            let ghost cm = entries_view(children@);
            let ghost ids0 = pairs_view(old(ids)@);
            let ghost mounts0 = pairs_view(old(mounts)@);
            proof {
                crate::fs::lemma_entries_view_index(children@);
                assert(cm.subrange(0, cm.len() as int) =~= cm);
                assert(spec_mounts_of_entry(entry_view(*entry), prefix@)
                    == spec_mounts_of_children(cm, prefix@));
            }
            let ghost mut done_ids: Seq<(Seq<char>, Seq<char>)> = Seq::empty();
            let ghost mut done_mounts: Seq<(Seq<char>, Seq<char>)> = Seq::empty();
            proof {
                assert(ids0 + done_ids =~= ids0);
                assert(mounts0 + done_mounts =~= mounts0);
            }
            let mut k: usize = 0;
            while k < children.len()
                invariant
                    k <= children@.len(),
                    cm == entries_view(children@),
                    cm.len() == children@.len(),
                    *entry is Dir,
                    entry->Dir_entries == Some(*children),
                    forall|i: int|
                        0 <= i < children@.len() ==> cm[i] == (
                            children@[i].0@,
                            entry_view(children@[i].1),
                        ),
                    pairs_view(ids@) == ids0 + done_ids,
                    pairs_view(mounts@) == mounts0 + done_mounts,
                    spec_mounts_of_children(cm, prefix@).0 == done_ids
                        + spec_mounts_of_children(
                        cm.subrange(k as int, cm.len() as int),
                        prefix@,
                    ).0,
                    spec_mounts_of_children(cm, prefix@).1 == done_mounts
                        + spec_mounts_of_children(
                        cm.subrange(k as int, cm.len() as int),
                        prefix@,
                    ).1,
                decreases children@.len() - k,
            {
                let ghost rest = cm.subrange(k as int, cm.len() as int);
                proof {
                    assert(rest[0] == cm[k as int]);
                    assert(rest.drop_first() =~= cm.subrange(k as int + 1, cm.len() as int));
                    assert(decreases_to!(*entry => entry->Dir_entries));
                    assert(decreases_to!(entry->Dir_entries => entry->Dir_entries->0));
                    assert(entry->Dir_entries->0 == *children);
                    assert(decreases_to!(*children => children@));
                    assert(decreases_to!(children@ => children@[k as int]));
                    assert(decreases_to!(children@[k as int] => children@[k as int].1));
                }
                let child_path: String = if prefix.is_empty() {
                    children[k].0.clone()
                } else {
                    let head = crate::text::concat_strs(prefix, "/");
                    crate::text::concat_strs(head.as_str(), children[k].0.as_str())
                };
                proof {
                    assert(child_path@ == spec_child_path(prefix@, cm[k as int].0));
                }
                collect_paths_and_mounts(&children[k].1, child_path.as_str(), ids, mounts);
                proof {
                    let step = spec_mounts_of_entry(cm[k as int].1, child_path@);
                    let di = done_ids;
                    let dm = done_mounts;
                    done_ids = done_ids + step.0;
                    done_mounts = done_mounts + step.1;
                    assert((ids0 + di) + step.0 =~= ids0 + (di + step.0));
                    assert((mounts0 + dm) + step.1 =~= mounts0 + (dm + step.1));
                    assert(di + (step.0 + spec_mounts_of_children(rest.drop_first(), prefix@).0)
                        =~= done_ids + spec_mounts_of_children(rest.drop_first(), prefix@).0);
                    assert(dm + (step.1 + spec_mounts_of_children(rest.drop_first(), prefix@).1)
                        =~= done_mounts + spec_mounts_of_children(rest.drop_first(), prefix@).1);
                }
                k = k + 1;
            }
            proof {
                assert(cm.subrange(k as int, cm.len() as int) =~= Seq::empty());
                assert(done_ids + Seq::<(Seq<char>, Seq<char>)>::empty() =~= done_ids);
                assert(done_mounts + Seq::<(Seq<char>, Seq<char>)>::empty() =~= done_mounts);
            }
        },
    }
}

}
