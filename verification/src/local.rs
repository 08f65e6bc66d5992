//! The local filesystem backend: the storage handle and a verified
//! model of the depth-limited walk that the unverified shell performs
//! with real directory reads.

use vstd::prelude::*;

verus! {

/// A local filesystem root.
#[derive(Debug, Clone)]
pub struct LocalStorage {
    /// The root directory of the scan.
    pub root: String,
}

impl LocalStorage {
    /// A storage over the given root directory.
    pub fn new(root: String) -> (r: LocalStorage)
        ensures
            r.root@ == root@,
    {
        LocalStorage { root }
    }

    /// The root directory.
    pub fn get_root(&self) -> (r: &str)
        ensures
            r@ == self.root@,
    {
        self.root.as_str()
    }
}

} // verus!

verus! {

/// One node of an in-memory directory tree: the verified model of a
/// local filesystem walk.  The unverified shell walks a real
/// directory with the same depth rule; tests walk trees built here.
#[derive(Debug)]
pub struct FsNode {
    /// The entry's name.
    pub name: String,
    /// Is the node a directory?
    pub is_dir: bool,
    /// Is the node a symlink?
    pub is_symlink: bool,
    /// Size in bytes.
    pub size: u64,
    /// Modification time, milliseconds since the epoch.
    pub modified: Option<i64>,
    /// Permission bits.
    pub mode: Option<u32>,
    /// The children; meaningful only for a directory.
    pub children: Vec<FsNode>,
}

/// What one walked entry looks like, mathematically.
pub ghost struct WalkItem {
    /// The entry's name.
    pub name: Seq<char>,
    /// The full path.
    pub path: Seq<char>,
    /// The path relative to the walk root; empty for the root.
    pub rel: Seq<char>,
    /// Is it a directory?
    pub is_dir: bool,
    /// Is it a symlink?
    pub is_symlink: bool,
    /// Size in bytes.
    pub size: int,
    /// Modification time.
    pub modified: Option<i64>,
    /// Permission bits.
    pub mode: Option<u32>,
    /// How many levels below the root the entry sits.
    pub level: nat,
}

/// The item a node yields at a given place in the walk.
pub open spec fn item_of(n: FsNode, path: Seq<char>, rel: Seq<char>, level: nat) -> WalkItem {
    WalkItem {
        name: n.name@,
        path,
        rel,
        is_dir: n.is_dir,
        is_symlink: n.is_symlink,
        size: n.size as int,
        modified: n.modified,
        mode: n.mode,
        level,
    }
}

/// A child's relative path: its name, under the parent's relative
/// path when that is non-empty.
pub open spec fn spec_join_rel(rel: Seq<char>, name: Seq<char>) -> Seq<char> {
    if rel.len() == 0 {
        name
    } else {
        rel + seq!['/'] + name
    }
}

/// The depth-first walk of a node standing at `path` (`rel` below the
/// root, at `level`): the node itself, then — when it is a directory
/// and the depth limit allows — its children.  A limit of 0 means
/// unbounded; otherwise only levels up to the limit are listed.
pub open spec fn spec_walk_node(
    n: FsNode,
    path: Seq<char>,
    rel: Seq<char>,
    level: nat,
    max: nat,
) -> Seq<WalkItem>
    decreases n, 1int,
    via spec_walk_node_decreases
{
    seq![item_of(n, path, rel, level)] + if n.is_dir && (max == 0 || level < max) {
        spec_walk_list(n.children@, path, rel, (level + 1) as nat, max)
    } else {
        Seq::empty()
    }
}

/// The walk of a list of siblings sitting in directory `path`.
pub open spec fn spec_walk_list(
    cs: Seq<FsNode>,
    path: Seq<char>,
    rel: Seq<char>,
    level: nat,
    max: nat,
) -> Seq<WalkItem>
    decreases cs, 0int,
    via spec_walk_list_decreases
{
    if cs.len() == 0 {
        Seq::empty()
    } else {
        spec_walk_node(
            cs[0],
            crate::nfs::spec_join_path(path, cs[0].name@),
            spec_join_rel(rel, cs[0].name@),
            level,
            max,
        ) + spec_walk_list(cs.drop_first(), path, rel, level, max)
    }
}

#[via_fn]
proof fn spec_walk_node_decreases(n: FsNode, path: Seq<char>, rel: Seq<char>, level: nat, max: nat) {
    broadcast use vstd::std_specs::vec::axiom_vec_decreases_to_view;

    assert(decreases_to!(n => n.children));
    assert(decreases_to!(n.children => n.children@));
}

#[via_fn]
proof fn spec_walk_list_decreases(
    cs: Seq<FsNode>,
    path: Seq<char>,
    rel: Seq<char>,
    level: nat,
    max: nat,
) {
    if cs.len() > 0 {
        broadcast use vstd::seq::axiom_seq_index_decreases;
        broadcast use vstd::seq::axiom_seq_subrange_decreases;

        assert(decreases_to!(cs => cs[0]));
        assert(cs.drop_first() == cs.subrange(1, cs.len() as int));
        assert(decreases_to!(cs => cs.subrange(1, cs.len() as int)));
    }
}

/// Every item of a walk sits between the starting level and the depth
/// limit: with a limit, nothing deeper than the limit is listed.
pub proof fn lemma_walk_level_bounds(
    n: FsNode,
    path: Seq<char>,
    rel: Seq<char>,
    level: nat,
    max: nat,
)
    requires
        max == 0 || level <= max,
    ensures
        forall|i: int|
            0 <= i < spec_walk_node(n, path, rel, level, max).len() ==> level <= (
            #[trigger] spec_walk_node(n, path, rel, level, max)[i]).level && (max == 0 || spec_walk_node(
                n,
                path,
                rel,
                level,
                max,
            )[i].level <= max),
    decreases n, 1int,
{
    let items = spec_walk_node(n, path, rel, level, max);
    assert(items[0] == item_of(n, path, rel, level));
    if n.is_dir && (max == 0 || level < max) {
        broadcast use vstd::std_specs::vec::axiom_vec_decreases_to_view;

        assert(decreases_to!(n => n.children));
        assert(decreases_to!(n.children => n.children@));
        lemma_walk_list_level_bounds(n.children@, path, rel, (level + 1) as nat, max);
        let sub = spec_walk_list(n.children@, path, rel, (level + 1) as nat, max);
        assert(forall|i: int| 1 <= i < items.len() ==> items[i] == sub[i - 1]);
    }
}

/// Level bounds for a sibling list.
proof fn lemma_walk_list_level_bounds(
    cs: Seq<FsNode>,
    path: Seq<char>,
    rel: Seq<char>,
    level: nat,
    max: nat,
)
    requires
        max == 0 || level <= max,
    ensures
        forall|i: int|
            0 <= i < spec_walk_list(cs, path, rel, level, max).len() ==> level <= (
            #[trigger] spec_walk_list(cs, path, rel, level, max)[i]).level && (max == 0
                || spec_walk_list(cs, path, rel, level, max)[i].level <= max),
    decreases cs, 0int,
{
    if cs.len() > 0 {
        broadcast use vstd::seq::axiom_seq_index_decreases;
        broadcast use vstd::seq::axiom_seq_subrange_decreases;

        assert(decreases_to!(cs => cs[0]));
        assert(cs.drop_first() == cs.subrange(1, cs.len() as int));
        assert(decreases_to!(cs => cs.subrange(1, cs.len() as int)));
        let hd = spec_walk_node(
            cs[0],
            crate::nfs::spec_join_path(path, cs[0].name@),
            spec_join_rel(rel, cs[0].name@),
            level,
            max,
        );
        let tl = spec_walk_list(cs.drop_first(), path, rel, level, max);
        lemma_walk_level_bounds(
            cs[0],
            crate::nfs::spec_join_path(path, cs[0].name@),
            spec_join_rel(rel, cs[0].name@),
            level,
            max,
        );
        lemma_walk_list_level_bounds(cs.drop_first(), path, rel, level, max);
        let items = spec_walk_list(cs, path, rel, level, max);
        assert(forall|i: int| 0 <= i < hd.len() ==> items[i] == hd[i]);
        assert(forall|i: int| hd.len() <= i < items.len() ==> items[i] == tl[i - hd.len()]);
    }
}

} // verus!

verus! {

/// The height of a tree node: 1 for a leaf.
pub open spec fn height_node(n: FsNode) -> nat
    decreases n, 1int,
    via height_node_decreases
{
    1 + height_list(n.children@)
}

/// The largest height among siblings.
pub open spec fn height_list(cs: Seq<FsNode>) -> nat
    decreases cs, 0int,
    via height_list_decreases
{
    if cs.len() == 0 {
        0
    } else {
        let h = height_node(cs[0]);
        let t = height_list(cs.drop_first());
        if h >= t {
            h
        } else {
            t
        }
    }
}

#[via_fn]
proof fn height_node_decreases(n: FsNode) {
    broadcast use vstd::std_specs::vec::axiom_vec_decreases_to_view;

    assert(decreases_to!(n => n.children));
    assert(decreases_to!(n.children => n.children@));
}

#[via_fn]
proof fn height_list_decreases(cs: Seq<FsNode>) {
    if cs.len() > 0 {
        broadcast use vstd::seq::axiom_seq_index_decreases;
        broadcast use vstd::seq::axiom_seq_subrange_decreases;

        assert(decreases_to!(cs => cs[0]));
        assert(cs.drop_first() == cs.subrange(1, cs.len() as int));
        assert(decreases_to!(cs => cs.subrange(1, cs.len() as int)));
    }
}

/// A child is lower than its parent.
proof fn lemma_child_height(cs: Seq<FsNode>, i: int)
    requires
        0 <= i < cs.len(),
    ensures
        height_node(cs[i]) <= height_list(cs),
    decreases cs, 0int,
{
    if cs.len() > 0 {
        broadcast use vstd::seq::axiom_seq_index_decreases;
        broadcast use vstd::seq::axiom_seq_subrange_decreases;

        assert(decreases_to!(cs => cs.subrange(1, cs.len() as int)));
        assert(cs.drop_first() == cs.subrange(1, cs.len() as int));
        if i > 0 {
            lemma_child_height(cs.drop_first(), i - 1);
            assert(cs.drop_first()[i - 1] == cs[i]);
        }
    }
}

/// Does a produced entry agree with a walk item?  Paths, names,
/// classification, size, times and mode carry over; the model fills
/// no access or creation time, no file handle, and one hard link.
pub open spec fn entry_matches_item(e: crate::storage::StorageEntry, it: WalkItem) -> bool {
    &&& e.name@ == it.name
    &&& e.path@ == it.path
    &&& e.relative_path@ == it.rel
    &&& e.is_dir == it.is_dir
    &&& e.is_symlink == it.is_symlink
    &&& e.size == it.size
    &&& e.modified == it.modified
    &&& e.mode == it.mode
    &&& e.accessed is None
    &&& e.created is None
    &&& e.nfs_fh is None
    &&& e.hard_links == Some(1u8)
}

/// A child's relative path.
fn join_rel(rel: &str, name: &str) -> (r: String)
    ensures
        r@ == spec_join_rel(rel@, name@),
{
    let rc = crate::text::string_to_chars(rel);
    let nc = crate::text::string_to_chars(name);
    if rc.len() == 0 {
        crate::text::chars_to_string(nc)
    } else {
        let mut out = rc;
        out.push('/');
        crate::text::append_chars(&mut out, nc.as_slice());
        proof {
            assert(out@ =~= rel@ + seq!['/'] + name@);
        }
        crate::text::chars_to_string(out)
    }
}

/// Walk one model node depth-first, appending an entry per item of
/// the mathematical walk, in order.
pub fn walk_node(
    n: &FsNode,
    path: &str,
    rel: &str,
    level: usize,
    max: usize,
    out: &mut Vec<crate::storage::StorageEntry>,
)
    requires
        level + height_node(*n) <= usize::MAX,
    ensures
        final (out)@.len() == old(out)@.len() + spec_walk_node(
            *n,
            path@,
            rel@,
            level as nat,
            max as nat,
        ).len(),
        forall|i: int| 0 <= i < old(out)@.len() ==> final (out)@[i] == old(out)@[i],
        forall|i: int|
            0 <= i < spec_walk_node(*n, path@, rel@, level as nat, max as nat).len()
                ==> entry_matches_item(
                final (out)@[old(out)@.len() + i],
                spec_walk_node(*n, path@, rel@, level as nat, max as nat)[i],
            ),
    decreases *n,
{
    let ghost items = spec_walk_node(*n, path@, rel@, level as nat, max as nat);
    let name = crate::text::chars_to_string(crate::text::string_to_chars(n.name.as_str()));
    let path_s = crate::text::chars_to_string(crate::text::string_to_chars(path));
    let rel_s = crate::text::chars_to_string(crate::text::string_to_chars(rel));
    let entry = crate::storage::StorageEntry {
        name,
        path: path_s,
        relative_path: rel_s,
        is_dir: n.is_dir,
        is_symlink: n.is_symlink,
        size: n.size,
        modified: match &n.modified {
            Some(m) => Some(*m),
            None => None,
        },
        accessed: None,
        created: None,
        nfs_fh: None,
        mode: match &n.mode {
            Some(m) => Some(*m),
            None => None,
        },
        hard_links: Some(1),
    };
    out.push(entry);
    proof {
        assert(items[0] == item_of(*n, path@, rel@, level as nat));
    }
    if n.is_dir && (max == 0 || level < max) {
        let ghost pre = out@;
        let ghost cs = n.children@;
        let ghost lvl = (level + 1) as nat;
        let ghost sub = spec_walk_list(cs, path@, rel@, lvl, max as nat);
        proof {
            assert(cs.skip(0) =~= cs);
            assert(sub.skip(0) =~= sub);
        }
        let cn = n.children.len();
        let mut i: usize = 0;
        while i < cn
            invariant
                cn == cs.len(),
                i <= cn,
                cs == n.children@,
                level < usize::MAX,
                level + height_node(*n) <= usize::MAX,
                sub == spec_walk_list(cs, path@, rel@, lvl, max as nat),
                lvl == level + 1,
                out@.len() >= pre.len(),
                out@.len() - pre.len() <= sub.len(),
                forall|k: int| 0 <= k < pre.len() ==> out@[k] == pre[k],
                sub.skip(out@.len() - pre.len()) == spec_walk_list(
                    cs.skip(i as int),
                    path@,
                    rel@,
                    lvl,
                    max as nat,
                ),
                forall|k: int|
                    0 <= k < out@.len() - pre.len() ==> entry_matches_item(
                        out@[pre.len() + k],
                        #[trigger] sub[k],
                    ),
            decreases cn - i,
        {
            let ghost done = out@.len() - pre.len();
            let ghost rest = sub.skip(done);
            let ghost child = cs[i as int];
            let ghost hd = spec_walk_node(
                child,
                crate::nfs::spec_join_path(path@, child.name@),
                spec_join_rel(rel@, child.name@),
                lvl,
                max as nat,
            );
            proof {
                assert(cs.skip(i as int)[0] == cs[i as int]);
                assert(cs.skip(i as int).drop_first() =~= cs.skip(i + 1));
                assert(rest == hd + spec_walk_list(cs.skip(i + 1), path@, rel@, lvl, max as nat));
                lemma_child_height(cs, i as int);
                broadcast use vstd::std_specs::vec::axiom_vec_decreases_to_view;
                broadcast use vstd::seq::axiom_seq_index_decreases;

                assert(decreases_to!(*n => n.children));
                assert(decreases_to!(n.children => n.children@));
                assert(decreases_to!(n.children@ => n.children@[i as int]));
            }
            let child_ref = &n.children[i];
            let child_path = crate::nfs::join_path(path, child_ref.name.as_str());
            let child_rel = join_rel(rel, child_ref.name.as_str());
            walk_node(child_ref, child_path.as_str(), child_rel.as_str(), level + 1, max, out);
            proof {
                let new_done = out@.len() - pre.len();
                assert(new_done == done + hd.len());
                assert forall|k: int| 0 <= k < new_done implies entry_matches_item(
                    out@[pre.len() + k],
                    #[trigger] sub[k],
                ) by {
                    if k >= done {
                        assert(rest[k - done] == hd[k - done]);
                        assert(sub[k] == rest[k - done]);
                        assert(entry_matches_item(out@[pre.len() + k], hd[k - done]));
                    }
                }
                assert(sub.skip(new_done) =~= spec_walk_list(
                    cs.skip(i + 1),
                    path@,
                    rel@,
                    lvl,
                    max as nat,
                )) by {
                    assert(forall|k: int|
                        0 <= k < rest.len() - hd.len() ==> rest[hd.len() + k]
                            == #[trigger] spec_walk_list(
                            cs.skip(i + 1),
                            path@,
                            rel@,
                            lvl,
                            max as nat,
                        )[k]);
                    assert(forall|k: int|
                        0 <= k < sub.len() - new_done ==> #[trigger] sub.skip(new_done)[k]
                            == rest[hd.len() + k]);
                }
            }
            i = i + 1;
        }
        proof {
            assert(cs.skip(cn as int) =~= Seq::<FsNode>::empty());
            assert(spec_walk_list(Seq::empty(), path@, rel@, lvl, max as nat).len() == 0);
            assert(out@.len() - pre.len() == sub.len()) by {
                assert(sub.skip(out@.len() - pre.len()).len() == 0);
            }
            assert(items =~= seq![item_of(*n, path@, rel@, level as nat)] + sub);
            assert forall|k: int| 0 <= k < old(out)@.len() implies out@[k] == old(out)@[k] by {
                assert(out@[k] == pre[k]);
                assert(pre[k] == old(out)@[k]);
            }
            assert forall|k: int| 0 <= k < items.len() implies entry_matches_item(
                out@[old(out)@.len() + k],
                items[k],
            ) by {
                if k == 0 {
                    assert(out@[old(out)@.len() as int] == pre[pre.len() - 1]);
                } else {
                    assert(items[k] == sub[k - 1]);
                    assert(out@[pre.len() + (k - 1)] == out@[old(out)@.len() + k]);
                }
            }
        }
    } else {
        proof {
            assert(items =~= seq![item_of(*n, path@, rel@, level as nat)]);
        }
    }
}

/// The entries of a depth-limited walk of a model tree rooted at this
/// storage's root path.  A limit of 0 means unbounded; a limit of N
/// lists the root and N further levels.
pub fn walk_model(storage: &LocalStorage, tree: &FsNode, depth: usize) -> (r: Vec<
    crate::storage::StorageEntry,
>)
    requires
        height_node(*tree) <= usize::MAX,
    ensures
        r@.len() == spec_walk_node(*tree, storage.root@, Seq::empty(), 0, depth as nat).len(),
        forall|i: int|
            0 <= i < r@.len() ==> entry_matches_item(
                r@[i],
                spec_walk_node(*tree, storage.root@, Seq::empty(), 0, depth as nat)[i],
            ),
{
    let mut out: Vec<crate::storage::StorageEntry> = Vec::new();
    let empty_rel = crate::text::chars_to_string(Vec::new());
    walk_node(tree, storage.root.as_str(), empty_rel.as_str(), 0, depth, &mut out);
    out
}

} // verus!
