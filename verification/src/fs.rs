//! The in-memory fake filesystem: a tree of files, directories and
//! symlinks, path normalization, and the lookup / insert / remove
//! primitives the shell commands are built on.

use vstd::prelude::*;
use crate::strutil::{str_eq, string_range, chars_of, views};

verus! {

#[derive(Debug)]
pub enum Node {
    File { content: String, permissions: u16, owner: String, protected: bool },
    Directory { children: Vec<(String, Node)>, permissions: u16, owner: String, protected: bool },
    Symlink { target: String, owner: String },
}

impl Node {
    pub fn is_protected(&self) -> (r: bool)
        ensures
            r == node_protected(*self),
    {
        match self {
            Node::File { protected, .. } => *protected,
            Node::Directory { protected, .. } => *protected,
            Node::Symlink { .. } => false,
        }
    }

    pub fn get_owner(&self) -> (r: &String)
        ensures
            r@ == node_owner(*self),
    {
        match self {
            Node::File { owner, .. } => owner,
            Node::Directory { owner, .. } => owner,
            Node::Symlink { owner, .. } => owner,
        }
    }
}

pub open spec fn node_protected(n: Node) -> bool {
    match n {
        Node::File { protected, .. } => protected,
        Node::Directory { protected, .. } => protected,
        Node::Symlink { .. } => false,
    }
}

pub open spec fn node_owner(n: Node) -> Seq<char> {
    match n {
        Node::File { owner, .. } => owner@,
        Node::Directory { owner, .. } => owner@,
        Node::Symlink { owner, .. } => owner@,
    }
}

/// Everything observable about one node except its children: a kind code
/// (0 file, 1 directory, 2 symlink), its text (file content or link
/// target), permissions, owner, and the protected flag.
pub open spec fn entry_of(n: Node) -> (int, Seq<char>, u16, Seq<char>, bool) {
    match n {
        Node::File { content, permissions, owner, protected } => (
            0int,
            content@,
            permissions,
            owner@,
            protected,
        ),
        Node::Directory { children, permissions, owner, protected } => (
            1int,
            Seq::empty(),
            permissions,
            owner@,
            protected,
        ),
        Node::Symlink { target, owner } => (2int, target@, 0o777u16, owner@, false),
    }
}

/// The first child carrying the given name.
pub open spec fn find_child(children: Seq<(String, Node)>, name: Seq<char>) -> Option<Node>
    decreases children.len(),
{
    if children.len() == 0 {
        Option::None
    } else if children[0].0@ == name {
        Option::Some(children[0].1)
    } else {
        find_child(children.skip(1), name)
    }
}

/// Resolves a path from a node, step by step; a missing name or a
/// non-directory in the middle resolves to nothing.
pub open spec fn lookup(n: Node, path: Seq<Seq<char>>) -> Option<Node>
    decreases path.len(),
{
    if path.len() == 0 {
        Option::Some(n)
    } else {
        match n {
            Node::Directory { children, .. } => match find_child(children@, path[0]) {
                Option::Some(c) => lookup(c, path.skip(1)),
                Option::None => Option::None,
            },
            _ => Option::None,
        }
    }
}

/// The observable entry at a path, if anything lives there.
pub open spec fn fs_entry(n: Node, q: Seq<Seq<char>>) -> Option<(int, Seq<char>, u16, Seq<char>, bool)> {
    match lookup(n, q) {
        Option::Some(m) => Option::Some(entry_of(m)),
        Option::None => Option::None,
    }
}

/// Whether `q` starts with all of `p`.
pub open spec fn path_extends(q: Seq<Seq<char>>, p: Seq<Seq<char>>) -> bool {
    p.len() <= q.len() && q.subrange(0, p.len() as int) == p
}

pub proof fn lemma_find_child_other(children: Seq<(String, Node)>, j: int, x: (String, Node), name: Seq<char>)
    requires
        0 <= j < children.len(),
        x.0@ == children[j].0@,
        forall|k: int| 0 <= k < j ==> children[k].0@ != children[j].0@,
    ensures
        name == children[j].0@ ==> find_child(children.update(j, x), name) == Option::Some(x.1),
        name != children[j].0@ ==> find_child(children.update(j, x), name) == find_child(
            children,
            name,
        ),
    decreases children.len(),
{
    if j == 0 {
        assert(children.update(0, x)[0] == x);
        assert(children.update(0, x).skip(1) =~= children.skip(1));
    } else {
        assert(children.update(j, x)[0] == children[0]);
        assert(children.update(j, x).skip(1) =~= children.skip(1).update(j - 1, x));
        lemma_find_child_other(children.skip(1), j - 1, x, name);
    }
}

pub proof fn lemma_find_child_push(children: Seq<(String, Node)>, x: (String, Node), name: Seq<char>)
    requires
        find_child(children, x.0@) is None,
    ensures
        name == x.0@ ==> find_child(children.push(x), name) == Option::Some(x.1),
        name != x.0@ ==> find_child(children.push(x), name) == find_child(children, name),
    decreases children.len(),
{
    if children.len() == 0 {
        assert(children.push(x)[0] == x);
        assert(children.push(x).skip(1) =~= Seq::<(String, Node)>::empty());
        assert(find_child(children.push(x).skip(1), name) is None);
        if name != x.0@ {
            assert(children.push(x)[0].0@ != name);
            assert(find_child(children.push(x), name) == find_child(
                children.push(x).skip(1),
                name,
            ));
        }
    } else {
        assert(children.push(x)[0] == children[0]);
        assert(children.push(x).skip(1) =~= children.skip(1).push(x));
        lemma_find_child_push(children.skip(1), x, name);
        if children[0].0@ == name {
            assert(find_child(children.push(x), name) == Option::Some(children[0].1));
        } else {
            assert(find_child(children.push(x), name) == find_child(
                children.skip(1).push(x),
                name,
            ));
        }
    }
}

/// Inserting an entry under a fresh name leaves every other name's first
/// match where it was, and the fresh name finds the new entry.
pub proof fn lemma_find_child_insert(children: Seq<(String, Node)>, ins: int, x: (String, Node), name: Seq<char>)
    requires
        0 <= ins <= children.len(),
        find_child(children, x.0@) is None,
    ensures
        name == x.0@ ==> find_child(children.insert(ins, x), name) == Option::Some(x.1),
        name != x.0@ ==> find_child(children.insert(ins, x), name) == find_child(children, name),
    decreases children.len(),
{
    children.insert_ensures(ins, x);
    if ins == 0 {
        assert(children.insert(0, x)[0] == x);
        assert(children.insert(0, x).skip(1) =~= children);
    } else {
        assert(children.insert(ins, x)[0] == children[0]);
        assert(children.insert(ins, x).skip(1) =~= children.skip(1).insert(ins - 1, x));
        lemma_find_child_insert(children.skip(1), ins - 1, x, name);
        if children[0].0@ == name {
            assert(find_child(children.insert(ins, x), name) == Option::Some(children[0].1));
        } else {
            assert(find_child(children.insert(ins, x), name) == find_child(
                children.skip(1).insert(ins - 1, x),
                name,
            ));
        }
    }
}

/// Finds the index of the first child with the given name.
pub fn find_child_idx(children: &Vec<(String, Node)>, name: &str) -> (r: Option<usize>)
    ensures
        match r {
            Option::Some(j) => {
                &&& j < children@.len()
                &&& children@[j as int].0@ == name@
                &&& forall|k: int| 0 <= k < j ==> children@[k].0@ != name@
                &&& find_child(children@, name@) == Option::Some(children@[j as int].1)
            },
            Option::None => find_child(children@, name@) is None,
        },
{
    let mut j: usize = 0;
    proof {
        assert(children@.skip(0) =~= children@);
    }
    while j < children.len()
        invariant
            j <= children@.len(),
            forall|k: int| 0 <= k < j ==> children@[k].0@ != name@,
            find_child(children@, name@) == find_child(children@.skip(j as int), name@),
        decreases children@.len() - j,
    {
        proof {
            assert(children@.skip(j as int)[0] == children@[j as int]);
            assert(children@.skip(j as int).skip(1) =~= children@.skip(j + 1));
        }
        if str_eq(children[j].0.as_str(), name) {
            return Option::Some(j);
        }
        j = j + 1;
    }
    proof {
        assert(children@.skip(children@.len() as int) =~= Seq::<(String, Node)>::empty());
    }
    Option::None
}

/// Well-formed trees carry no duplicate names in any directory, and every
/// directory keeps its children sorted ascending by name; listings walk
/// the stored order and so come out sorted.
pub open spec fn node_wf(n: Node) -> bool
    decreases n,
{
    match n {
        Node::Directory { children, .. } => {
            &&& (forall|a: int, b: int| 0 <= a < b < children@.len() ==> (#[trigger] children@[a]).0@
                != (#[trigger] children@[b]).0@)
            &&& (forall|a: int, b: int| 0 <= a < b < children@.len() ==> crate::strutil::lex_lt(
                (#[trigger] children@[a]).0@,
                (#[trigger] children@[b]).0@,
            ))
            &&& (forall|k: int| 0 <= k < children@.len() ==> node_wf((#[trigger] children@[k]).1))
        },
        _ => true,
    }
}

pub proof fn lemma_find_child_remove(children: Seq<(String, Node)>, j: int, name: Seq<char>)
    requires
        0 <= j < children.len(),
        forall|a: int, b: int| 0 <= a < b < children.len() ==> (#[trigger] children[a]).0@ != (
        #[trigger] children[b]).0@,
    ensures
        name == children[j].0@ ==> find_child(children.remove(j), name) is None,
        name != children[j].0@ ==> find_child(children.remove(j), name) == find_child(
            children,
            name,
        ),
    decreases children.len(),
{
    if j == 0 {
        assert(children.remove(0) =~= children.skip(1));
        if name == children[0].0@ {
            lemma_find_child_absent(children.skip(1), name, children, 1);
        }
    } else {
        assert(children.remove(j)[0] == children[0]);
        assert(children.remove(j).skip(1) =~= children.skip(1).remove(j - 1));
        assert forall|a: int, b: int| 0 <= a < b < children.skip(1).len() implies (
        #[trigger] children.skip(1)[a]).0@ != (#[trigger] children.skip(1)[b]).0@ by {
            assert(children.skip(1)[a] == children[a + 1]);
            assert(children.skip(1)[b] == children[b + 1]);
        }
        lemma_find_child_remove(children.skip(1), j - 1, name);
    }
}

/// In a duplicate-free directory, a name carried at index `from` onward of
/// `whole` is not found in a suffix beyond it.
proof fn lemma_find_child_absent(s: Seq<(String, Node)>, name: Seq<char>, whole: Seq<(String, Node)>, from: int)
    requires
        0 <= from,
        s =~= whole.skip(from),
        from <= whole.len(),
        forall|a: int, b: int| 0 <= a < b < whole.len() ==> (#[trigger] whole[a]).0@ != (
        #[trigger] whole[b]).0@,
        exists|p: int| 0 <= p < from && (#[trigger] whole[p]).0@ == name,
    ensures
        find_child(s, name) is None,
    decreases s.len(),
{
    if s.len() > 0 {
        let p = choose|p: int| 0 <= p < from && (#[trigger] whole[p]).0@ == name;
        assert(s[0] == whole[from]);
        assert(whole[p].0@ != whole[from].0@);
        assert(s.skip(1) =~= whole.skip(from + 1));
        lemma_find_child_absent(s.skip(1), name, whole, from + 1);
    }
}
/// The outcome of a structural change to the tree.
#[derive(Clone, Copy, PartialEq, Eq, Structural, Debug)]
pub enum FsOp {
    Done,
    NotFound,
    NotDirectory,
    Exists,
    Missing,
}

/// Inserts `child` under `name` in the directory reached by
/// `path[i..]`, reporting exactly why it could not.  On success every
/// entry outside the new subtree is untouched and the new subtree reads as
/// `child` does.
pub fn insert_child(node: &mut Node, path: &[String], i: usize, name: String, child: Node) -> (r:
    FsOp)
    requires
        i <= path@.len(),
        node_wf(*old(node)),
        node_wf(child),
    ensures
        node_wf(*final(node)),
        ({
            let pv = views(path@).skip(i as int);
            let tgt = pv.push(name@);
            match r {
                FsOp::NotFound => lookup(*old(node), pv) is None && (forall|q: Seq<Seq<char>>|
                    fs_entry(*final(node), q) == fs_entry(*old(node), q)),
                FsOp::NotDirectory => lookup(*old(node), pv) is Some && !(lookup(
                    *old(node),
                    pv,
                )->0 is Directory) && (forall|q: Seq<Seq<char>>|
                    fs_entry(*final(node), q) == fs_entry(*old(node), q)),
                FsOp::Exists => lookup(*old(node), pv) is Some && lookup(*old(node), pv)->0
                    is Directory && lookup(*old(node), tgt) is Some && (forall|q: Seq<Seq<char>>|
                    fs_entry(*final(node), q) == fs_entry(*old(node), q)),
                FsOp::Done => lookup(*old(node), pv) is Some && lookup(*old(node), pv)->0
                    is Directory && lookup(*old(node), tgt) is None && (forall|q: Seq<Seq<char>>|
                    !path_extends(q, tgt) ==> fs_entry(*final(node), q) == fs_entry(
                        *old(node),
                        q,
                    )) && (forall|q: Seq<Seq<char>>|
                    path_extends(q, tgt) ==> fs_entry(*final(node), q) == fs_entry(
                        child,
                        q.skip(tgt.len() as int),
                    )),
                _ => false,
            }
        }),
    decreases path@.len() - i,
{
    let ghost pv = views(path@).skip(i as int);
    let ghost tgt = pv.push(name@);
    let ghost oldn = *node;
    if i == path.len() {
        match node {
            Node::Directory { children, .. } => {
                match find_child_idx(children, name.as_str()) {
                    Option::Some(j) => {
                        proof {
                            assert(pv =~= Seq::<Seq<char>>::empty());
                            assert(tgt =~= seq![name@]);
                            assert(tgt.skip(1) =~= Seq::<Seq<char>>::empty());
                            assert(oldn->Directory_children@ == children@);
                            assert(find_child(children@, name@) == Option::Some(
                                children@[j as int].1,
                            ));
                            assert(lookup(oldn, tgt) == lookup(
                                children@[j as int].1,
                                tgt.skip(1),
                            ));
                        }
                        FsOp::Exists
                    },
                    Option::None => {
                        let ghost oldc = children@;
                        proof {
                            // the name is absent from every slot
                            assert forall|k: int| 0 <= k < oldc.len() implies (
                            #[trigger] oldc[k]).0@ != name@ by {
                                if oldc[k].0@ == name@ {
                                    lemma_find_child_found(oldc, k, name@);
                                }
                            }
                        }
                        // keep the directory sorted: slide past smaller names
                        let mut ins: usize = 0;
                        while ins < children.len() && crate::strutil::str_lt(
                            children[ins].0.as_str(),
                            name.as_str(),
                        )
                            invariant
                                children@ == oldc,
                                node_wf(oldn),
                                oldn is Directory,
                                oldn->Directory_children@ == oldc,
                                forall|k: int| 0 <= k < oldc.len() ==> (#[trigger] oldc[k]).0@
                                    != name@,
                                ins <= oldc.len(),
                                forall|k: int| 0 <= k < ins ==> crate::strutil::lex_lt(
                                    (#[trigger] oldc[k]).0@,
                                    name@,
                                ),
                            decreases oldc.len() - ins,
                        {
                            ins = ins + 1;
                        }
                        proof {
                            // everything at or after the slot is larger than the name
                            assert forall|k: int| ins <= k < oldc.len() implies
                                crate::strutil::lex_lt(name@, (#[trigger] oldc[k]).0@) by {
                                crate::strutil::lemma_lex_total(oldc[ins as int].0@, name@);
                                if k > ins {
                                    crate::strutil::lemma_lex_transitive(
                                        name@,
                                        oldc[ins as int].0@,
                                        oldc[k].0@,
                                    );
                                }
                            }
                        }
                        let ghost x_g = (name, child);
                        children.insert(ins, (name, child));
                        proof {
                            assert(pv =~= Seq::<Seq<char>>::empty());
                            assert(tgt =~= seq![name@]);
                            let n2 = *node;
                            let newc = n2->Directory_children@;
                            assert(newc == oldc.insert(ins as int, x_g));
                            oldc.insert_ensures(ins as int, x_g);
                            // well-formedness: fresh name, order kept around the slot
                            assert forall|a: int, b: int| 0 <= a < b < newc.len() implies (
                            #[trigger] newc[a]).0@ != (#[trigger] newc[b]).0@
                                && crate::strutil::lex_lt(newc[a].0@, newc[b].0@) by {
                                let a2: int = if a < ins {
                                    a
                                } else {
                                    a - 1
                                };
                                let b2: int = if b < ins {
                                    b
                                } else {
                                    b - 1
                                };
                                if a != ins && b != ins {
                                    assert(newc[a] == oldc[a2] && newc[b] == oldc[b2]);
                                } else if a == ins {
                                    assert(newc[a] == x_g && newc[b] == oldc[b2]);
                                    crate::strutil::lemma_lex_total(name@, oldc[b2].0@);
                                } else {
                                    assert(newc[a] == oldc[a2] && newc[b] == x_g);
                                    crate::strutil::lemma_lex_total(oldc[a2].0@, name@);
                                }
                            }
                            assert forall|k: int| 0 <= k < newc.len() implies node_wf(
                                (#[trigger] newc[k]).1,
                            ) by {
                                if k < ins {
                                    assert(newc[k] == oldc[k]);
                                } else if k > ins {
                                    assert(newc[k] == oldc[k - 1]);
                                } else {
                                    assert(newc[k] == x_g);
                                }
                            }
                            assert(node_wf(n2));
                            // entries elsewhere are untouched; the new path reads as the child
                            assert forall|q: Seq<Seq<char>>| !path_extends(q, tgt) implies fs_entry(
                                n2,
                                q,
                            ) == fs_entry(oldn, q) by {
                                if q.len() == 0 {
                                } else {
                                    lemma_find_child_insert(oldc, ins as int, x_g, q[0]);
                                    if q[0] == name@ {
                                        assert(q.subrange(0, 1) =~= tgt);
                                    }
                                }
                            }
                            assert forall|q: Seq<Seq<char>>| path_extends(q, tgt) implies fs_entry(
                                n2,
                                q,
                            ) == fs_entry(child, q.skip(tgt.len() as int)) by {
                                assert(q.subrange(0, 1) =~= seq![q[0]]);
                                assert(q[0] == name@);
                                lemma_find_child_insert(oldc, ins as int, x_g, q[0]);
                                assert(lookup(n2, q) == lookup(child, q.skip(1)));
                            }
                            assert(lookup(oldn, tgt) is None);
                        }
                        FsOp::Done
                    },
                }
            },
            _ => {
                proof {
                    assert(pv =~= Seq::<Seq<char>>::empty());
                }
                FsOp::NotDirectory
            },
        }
    } else {
        match node {
            Node::Directory { children, .. } => {
                let step = &path[i];
                match find_child_idx(children, step.as_str()) {
                    Option::None => {
                        proof {
                            assert(pv[0] == path@[i as int]@);
                            assert(lookup(oldn, pv) is None);
                        }
                        FsOp::NotFound
                    },
                    Option::Some(j) => {
                        let ghost oldc = children@;
                        let (nm, mut sub) = children.remove(j);
                        let ghost oldsub = sub;
                        proof {
                            assert(oldc[j as int].1 == sub);
                            assert(node_wf(sub));
                        }
                        let r = insert_child(&mut sub, path, i + 1, name, child);
                        children.insert(j, (nm, sub));
                        proof {
                            let n2 = *node;
                            let newc = n2->Directory_children@;
                            assert(newc =~= oldc.update(j as int, (oldc[j as int].0, sub)));
                            let x = newc[j as int];
                            assert(x.0@ == oldc[j as int].0@ && x.1 == sub);
                            // well-formedness is preserved
                            assert forall|a: int, b: int| 0 <= a < b < newc.len() implies (
                            #[trigger] newc[a]).0@ != (#[trigger] newc[b]).0@ by {
                                assert(oldc[a].0@ != oldc[b].0@);
                            }
                            assert forall|k: int| 0 <= k < newc.len() implies node_wf(
                                (#[trigger] newc[k]).1,
                            ) by {
                                if k != j {
                                    assert(newc[k] == oldc[k]);
                                }
                            }
                            assert(node_wf(n2));
                            // lookups led by this child's name go to the new subtree,
                            // all others are untouched
                            let nm0 = oldc[j as int].0@;
                            assert(pv[0] == path@[i as int]@ && nm0 == pv[0]);
                            let pvr = views(path@).skip(i + 1);
                            assert(pvr =~= pv.skip(1));
                            let tgtr = pvr.push(name@);
                            assert(tgtr =~= tgt.skip(1));
                            assert(lookup(oldn, pv) == lookup(oldsub, pvr));
                            assert(lookup(oldn, tgt) == lookup(oldsub, tgtr));
                            if r == FsOp::Done {
                                assert forall|q: Seq<Seq<char>>| !path_extends(
                                    q,
                                    tgt,
                                ) implies fs_entry(n2, q) == fs_entry(oldn, q) by {
                                    lemma_step_frame(oldn, n2, oldsub, sub, oldc, j as int, q);
                                    if q.len() > 0 && q[0] == nm0 {
                                        if path_extends(q.skip(1), tgtr) {
                                            assert forall|k: int| 0 <= k < tgt.len() implies
                                                q.subrange(0, tgt.len() as int)[k] == tgt[k] by {
                                                if k > 0 {
                                                    assert(q.skip(1).subrange(
                                                        0,
                                                        tgtr.len() as int,
                                                    )[k - 1] == tgtr[k - 1]);
                                                    assert(q.skip(1)[k - 1] == q[k]);
                                                    assert(tgtr[k - 1] == tgt[k]);
                                                }
                                            }
                                            assert(q.subrange(0, tgt.len() as int) =~= tgt);
                                        }
                                        assert(!path_extends(q.skip(1), tgtr));
                                        assert(fs_entry(sub, q.skip(1)) == fs_entry(
                                            oldsub,
                                            q.skip(1),
                                        ));
                                    }
                                }
                                assert forall|q: Seq<Seq<char>>| path_extends(q, tgt) implies
                                    fs_entry(n2, q) == fs_entry(
                                    child,
                                    q.skip(tgt.len() as int),
                                ) by {
                                    lemma_step_frame(oldn, n2, oldsub, sub, oldc, j as int, q);
                                    assert(q.subrange(0, tgt.len() as int)[0] == q[0]);
                                    assert(q[0] == tgt[0]);
                                    assert(path_extends(q.skip(1), tgtr)) by {
                                        assert forall|k: int| 0 <= k < tgtr.len() implies
                                            q.skip(1).subrange(0, tgtr.len() as int)[k]
                                            == tgtr[k] by {
                                            assert(q.skip(1)[k] == q[k + 1]);
                                            assert(q.subrange(0, tgt.len() as int)[k + 1] == tgt[
                                                k + 1]);
                                            assert(tgt[k + 1] == tgtr[k]);
                                        }
                                        assert(q.skip(1).subrange(0, tgtr.len() as int)
                                            =~= tgtr);
                                    }
                                    assert(fs_entry(sub, q.skip(1)) == fs_entry(
                                        child,
                                        q.skip(1).skip(tgtr.len() as int),
                                    ));
                                    assert(q.skip(1).skip(tgtr.len() as int) =~= q.skip(
                                        tgt.len() as int,
                                    ));
                                }
                            } else {
                                assert forall|q: Seq<Seq<char>>| fs_entry(n2, q) == fs_entry(
                                    oldn,
                                    q,
                                ) by {
                                    lemma_step_frame(oldn, n2, oldsub, sub, oldc, j as int, q);
                                    if q.len() > 0 && q[0] == nm0 {
                                        assert(fs_entry(sub, q.skip(1)) == fs_entry(
                                            oldsub,
                                            q.skip(1),
                                        ));
                                    }
                                }
                            }
                        }
                        r
                    },
                }
            },
            _ => {
                proof {
                    assert(pv.len() > 0);
                    assert(lookup(oldn, pv) is None);
                }
                FsOp::NotFound
            },
        }
    }
}

/// A directory whose `j`-th child's name is first at `j` relates old and
/// new lookups: paths led by that name go through the rewritten subtree,
/// every other path is untouched.
proof fn lemma_step_frame(
    oldn: Node,
    n2: Node,
    oldsub: Node,
    sub: Node,
    oldc: Seq<(String, Node)>,
    j: int,
    q: Seq<Seq<char>>,
)
    requires
        oldn is Directory,
        n2 is Directory,
        oldn->Directory_children@ == oldc,
        0 <= j < oldc.len(),
        oldc[j].1 == oldsub,
        n2->Directory_children@ == oldc.update(j, (oldc[j].0, sub)),
        entry_of(n2) == entry_of(oldn),
        forall|a: int, b: int| 0 <= a < b < oldc.len() ==> (#[trigger] oldc[a]).0@ != (
        #[trigger] oldc[b]).0@,
    ensures
        q.len() == 0 ==> fs_entry(n2, q) == Option::Some(entry_of(oldn)) && fs_entry(oldn, q)
            == Option::Some(entry_of(oldn)),
        q.len() > 0 && q[0] == oldc[j].0@ ==> lookup(n2, q) == lookup(sub, q.skip(1)) && lookup(
            oldn,
            q,
        ) == lookup(oldsub, q.skip(1)),
        q.len() > 0 && q[0] != oldc[j].0@ ==> lookup(n2, q) == lookup(oldn, q),
{
    if q.len() > 0 {
        let x = (oldc[j].0, sub);
        assert forall|k: int| 0 <= k < j implies (#[trigger] oldc[k]).0@ != oldc[j].0@ by {}
        lemma_find_child_other(oldc, j, x, q[0]);
        if q[0] == oldc[j].0@ {
            lemma_find_child_first(oldc, j);
        }
    }
}

/// The first match of a duplicate-free directory's `j`-th name is the
/// `j`-th child.
proof fn lemma_find_child_first(oldc: Seq<(String, Node)>, j: int)
    requires
        0 <= j < oldc.len(),
        forall|a: int, b: int| 0 <= a < b < oldc.len() ==> (#[trigger] oldc[a]).0@ != (
        #[trigger] oldc[b]).0@,
    ensures
        find_child(oldc, oldc[j].0@) == Option::Some(oldc[j].1),
    decreases j,
{
    if j == 0 {
    } else {
        assert(oldc[0].0@ != oldc[j].0@);
        assert forall|a: int, b: int| 0 <= a < b < oldc.skip(1).len() implies (
        #[trigger] oldc.skip(1)[a]).0@ != (#[trigger] oldc.skip(1)[b]).0@ by {
            assert(oldc.skip(1)[a] == oldc[a + 1]);
            assert(oldc.skip(1)[b] == oldc[b + 1]);
        }
        assert(oldc.skip(1)[j - 1] == oldc[j]);
        lemma_find_child_first(oldc.skip(1), j - 1);
    }
}

/// If some child at an index carries a name, `find_child` finds that name.
proof fn lemma_find_child_found(c: Seq<(String, Node)>, a: int, name: Seq<char>)
    requires
        0 <= a < c.len(),
        c[a].0@ == name,
    ensures
        find_child(c, name) is Some,
    decreases a,
{
    if a > 0 && c[0].0@ != name {
        assert(c.skip(1)[a - 1] == c[a]);
        lemma_find_child_found(c.skip(1), a - 1, name);
    }
}

/// Removes the child `name` of the directory reached by `path[i..]`,
/// reporting exactly why it could not.  On success the entry and the whole
/// subtree under it are gone and everything else is untouched.
pub fn remove_child(node: &mut Node, path: &[String], i: usize, name: &str) -> (r: FsOp)
    requires
        i <= path@.len(),
        node_wf(*old(node)),
    ensures
        node_wf(*final(node)),
        ({
            let pv = views(path@).skip(i as int);
            let tgt = pv.push(name@);
            match r {
                FsOp::NotFound => lookup(*old(node), pv) is None && (forall|q: Seq<Seq<char>>|
                    fs_entry(*final(node), q) == fs_entry(*old(node), q)),
                FsOp::NotDirectory => lookup(*old(node), pv) is Some && !(lookup(
                    *old(node),
                    pv,
                )->0 is Directory) && (forall|q: Seq<Seq<char>>|
                    fs_entry(*final(node), q) == fs_entry(*old(node), q)),
                FsOp::Missing => lookup(*old(node), pv) is Some && lookup(*old(node), pv)->0
                    is Directory && lookup(*old(node), tgt) is None && (forall|q: Seq<Seq<char>>|
                    fs_entry(*final(node), q) == fs_entry(*old(node), q)),
                FsOp::Done => lookup(*old(node), pv) is Some && lookup(*old(node), pv)->0
                    is Directory && lookup(*old(node), tgt) is Some && (forall|q: Seq<Seq<char>>|
                    !path_extends(q, tgt) ==> fs_entry(*final(node), q) == fs_entry(
                        *old(node),
                        q,
                    )) && (forall|q: Seq<Seq<char>>|
                    path_extends(q, tgt) ==> fs_entry(*final(node), q) is None),
                _ => false,
            }
        }),
    decreases path@.len() - i,
{
    let ghost pv = views(path@).skip(i as int);
    let ghost tgt = pv.push(name@);
    let ghost oldn = *node;
    if i == path.len() {
        match node {
            Node::Directory { children, .. } => {
                match find_child_idx(children, name) {
                    Option::None => {
                        proof {
                            assert(pv =~= Seq::<Seq<char>>::empty());
                            assert(tgt =~= seq![name@]);
                            assert(oldn->Directory_children@ == children@);
                            assert(lookup(oldn, tgt) is None);
                        }
                        FsOp::Missing
                    },
                    Option::Some(j) => {
                        let ghost oldc = children@;
                        children.remove(j);
                        proof {
                            assert(pv =~= Seq::<Seq<char>>::empty());
                            assert(tgt =~= seq![name@]);
                            let n2 = *node;
                            let newc = n2->Directory_children@;
                            assert(newc == oldc.remove(j as int));
                            assert forall|a: int, b: int| 0 <= a < b < newc.len() implies (
                            #[trigger] newc[a]).0@ != (#[trigger] newc[b]).0@ by {
                                let a2: int = if a < j {
                                    a
                                } else {
                                    a + 1
                                };
                                let b2: int = if b < j {
                                    b
                                } else {
                                    b + 1
                                };
                                assert(newc[a] == oldc[a2] && newc[b] == oldc[b2]);
                                assert(oldc[a2].0@ != oldc[b2].0@);
                            }
                            assert forall|k: int| 0 <= k < newc.len() implies node_wf(
                                (#[trigger] newc[k]).1,
                            ) by {
                                let k2: int = if k < j {
                                    k
                                } else {
                                    k + 1
                                };
                                assert(newc[k] == oldc[k2]);
                            }
                            assert(node_wf(n2));
                            assert(oldn->Directory_children@ == oldc);
                            assert(tgt[0] == name@ && tgt.skip(1) =~= Seq::<Seq<char>>::empty());
                            assert(find_child(oldc, name@) == Option::Some(oldc[j as int].1));
                            assert(lookup(oldn, tgt) == lookup(oldc[j as int].1, tgt.skip(1)));
                            assert(lookup(oldn, tgt) == Option::Some(oldc[j as int].1));
                            assert forall|q: Seq<Seq<char>>| !path_extends(q, tgt) implies
                                fs_entry(n2, q) == fs_entry(oldn, q) by {
                                if q.len() > 0 {
                                    lemma_find_child_remove(oldc, j as int, q[0]);
                                    if q[0] == name@ {
                                        assert(q.subrange(0, 1) =~= tgt);
                                    }
                                }
                            }
                            assert forall|q: Seq<Seq<char>>| path_extends(q, tgt) implies
                                fs_entry(n2, q) is None by {
                                assert(q.subrange(0, 1)[0] == q[0]);
                                assert(q[0] == name@);
                                lemma_find_child_remove(oldc, j as int, q[0]);
                                assert(lookup(n2, q) is None);
                            }
                        }
                        FsOp::Done
                    },
                }
            },
            _ => {
                proof {
                    assert(pv =~= Seq::<Seq<char>>::empty());
                }
                FsOp::NotDirectory
            },
        }
    } else {
        match node {
            Node::Directory { children, .. } => {
                let step = &path[i];
                match find_child_idx(children, step.as_str()) {
                    Option::None => {
                        proof {
                            assert(pv[0] == path@[i as int]@);
                            assert(lookup(oldn, pv) is None);
                        }
                        FsOp::NotFound
                    },
                    Option::Some(j) => {
                        let ghost oldc = children@;
                        let (nm, mut sub) = children.remove(j);
                        let ghost oldsub = sub;
                        proof {
                            assert(oldc[j as int].1 == sub);
                            assert(node_wf(sub));
                        }
                        let r = remove_child(&mut sub, path, i + 1, name);
                        children.insert(j, (nm, sub));
                        proof {
                            let n2 = *node;
                            let newc = n2->Directory_children@;
                            assert(newc =~= oldc.update(j as int, (oldc[j as int].0, sub)));
                            assert forall|a: int, b: int| 0 <= a < b < newc.len() implies (
                            #[trigger] newc[a]).0@ != (#[trigger] newc[b]).0@ by {
                                assert(oldc[a].0@ != oldc[b].0@);
                            }
                            assert forall|k: int| 0 <= k < newc.len() implies node_wf(
                                (#[trigger] newc[k]).1,
                            ) by {
                                if k != j {
                                    assert(newc[k] == oldc[k]);
                                }
                            }
                            assert(node_wf(n2));
                            let nm0 = oldc[j as int].0@;
                            assert(pv[0] == path@[i as int]@ && nm0 == pv[0]);
                            let pvr = views(path@).skip(i + 1);
                            assert(pvr =~= pv.skip(1));
                            let tgtr = pvr.push(name@);
                            assert(tgtr =~= tgt.skip(1));
                            assert(lookup(oldn, pv) == lookup(oldsub, pvr));
                            assert(lookup(oldn, tgt) == lookup(oldsub, tgtr));
                            if r == FsOp::Done {
                                assert forall|q: Seq<Seq<char>>| !path_extends(
                                    q,
                                    tgt,
                                ) implies fs_entry(n2, q) == fs_entry(oldn, q) by {
                                    lemma_step_frame(oldn, n2, oldsub, sub, oldc, j as int, q);
                                    if q.len() > 0 && q[0] == nm0 {
                                        if path_extends(q.skip(1), tgtr) {
                                            assert forall|k: int| 0 <= k < tgt.len() implies
                                                q.subrange(0, tgt.len() as int)[k] == tgt[k] by {
                                                if k > 0 {
                                                    assert(q.skip(1).subrange(
                                                        0,
                                                        tgtr.len() as int,
                                                    )[k - 1] == tgtr[k - 1]);
                                                    assert(q.skip(1)[k - 1] == q[k]);
                                                    assert(tgtr[k - 1] == tgt[k]);
                                                }
                                            }
                                            assert(q.subrange(0, tgt.len() as int) =~= tgt);
                                        }
                                        assert(!path_extends(q.skip(1), tgtr));
                                        assert(fs_entry(sub, q.skip(1)) == fs_entry(
                                            oldsub,
                                            q.skip(1),
                                        ));
                                    }
                                }
                                assert forall|q: Seq<Seq<char>>| path_extends(q, tgt) implies
                                    fs_entry(n2, q) is None by {
                                    lemma_step_frame(oldn, n2, oldsub, sub, oldc, j as int, q);
                                    assert(q.subrange(0, tgt.len() as int)[0] == q[0]);
                                    assert(q[0] == tgt[0]);
                                    assert(path_extends(q.skip(1), tgtr)) by {
                                        assert forall|k: int| 0 <= k < tgtr.len() implies
                                            q.skip(1).subrange(0, tgtr.len() as int)[k]
                                            == tgtr[k] by {
                                            assert(q.skip(1)[k] == q[k + 1]);
                                            assert(q.subrange(0, tgt.len() as int)[k + 1] == tgt[
                                                k + 1]);
                                            assert(tgt[k + 1] == tgtr[k]);
                                        }
                                        assert(q.skip(1).subrange(0, tgtr.len() as int)
                                            =~= tgtr);
                                    }
                                    assert(fs_entry(sub, q.skip(1)) is None);
                                }
                            } else {
                                assert forall|q: Seq<Seq<char>>| fs_entry(n2, q) == fs_entry(
                                    oldn,
                                    q,
                                ) by {
                                    lemma_step_frame(oldn, n2, oldsub, sub, oldc, j as int, q);
                                    if q.len() > 0 && q[0] == nm0 {
                                        assert(fs_entry(sub, q.skip(1)) == fs_entry(
                                            oldsub,
                                            q.skip(1),
                                        ));
                                    }
                                }
                            }
                        }
                        r
                    },
                }
            },
            _ => {
                proof {
                    assert(pv.len() > 0);
                    assert(lookup(oldn, pv) is None);
                }
                FsOp::NotFound
            },
        }
    }
}

/// The first index at or after `i` holding a slash.
pub open spec fn next_slash(s: Seq<char>, i: int) -> int
    decreases s.len() - i,
{
    if i < 0 || i >= s.len() {
        s.len() as int
    } else if s[i] == '/' {
        i
    } else {
        next_slash(s, i + 1)
    }
}

pub proof fn lemma_next_slash(s: Seq<char>, i: int)
    requires
        0 <= i <= s.len(),
    ensures
        i <= next_slash(s, i) <= s.len(),
        forall|j: int| i <= j < next_slash(s, i) ==> s[j] != '/',
        next_slash(s, i) < s.len() ==> s[next_slash(s, i)] == '/',
    decreases s.len() - i,
{
    if i < s.len() && s[i] != '/' {
        lemma_next_slash(s, i + 1);
    }
}

/// The slash-separated pieces of a path, empty pieces dropped.
pub open spec fn split_slash(s: Seq<char>, i: int) -> Seq<Seq<char>>
    decreases s.len() - i,
{
    if i < 0 || i >= s.len() {
        Seq::empty()
    } else if s[i] == '/' {
        split_slash(s, i + 1)
    } else {
        let e = next_slash(s, i);
        if i < e <= s.len() {
            seq![s.subrange(i, e)] + split_slash(s, e)
        } else {
            Seq::empty()
        }
    }
}

/// Folds path pieces into an absolute path: `.` is dropped, `..` pops,
/// anything else descends.
pub open spec fn apply_segments(acc: Seq<Seq<char>>, segs: Seq<Seq<char>>) -> Seq<Seq<char>>
    decreases segs.len(),
{
    if segs.len() == 0 {
        acc
    } else if segs[0] == "."@ {
        apply_segments(acc, segs.skip(1))
    } else if segs[0] == ".."@ {
        apply_segments(
            if acc.len() > 0 {
                acc.drop_last()
            } else {
                acc
            },
            segs.skip(1),
        )
    } else {
        apply_segments(acc.push(segs[0]), segs.skip(1))
    }
}

/// The absolute path a path argument denotes, relative to `current` unless
/// it starts with a slash.
pub open spec fn normalize_model(path: Seq<char>, current: Seq<Seq<char>>) -> Seq<Seq<char>> {
    apply_segments(
        if path.len() > 0 && path[0] == '/' {
            Seq::empty()
        } else {
            current
        },
        split_slash(path, 0),
    )
}

/// Resolves `.` and `..` against the current directory, as the shell
/// commands see paths.
pub fn normalize_path(path: &str, current: &[String]) -> (r: Vec<String>)
    ensures
        views(r@) == normalize_model(path@, views(current@)),
{
    let chars = chars_of(path);
    let n = chars.len();
    let ghost full = path@;
    let mut acc: Vec<String> = Vec::new();
    let absolute = n > 0 && chars[0] == '/';
    if !absolute {
        let mut k: usize = 0;
        while k < current.len()
            invariant
                k <= current@.len(),
                views(acc@) == views(current@).subrange(0, k as int),
            decreases current@.len() - k,
        {
            let ghost prev = acc@;
            acc.push(current[k].clone());
            k = k + 1;
            proof {
                prev.lemma_push_map_commute(|x: String| x@, acc@.last());
                assert(views(acc@) =~= views(current@).subrange(0, k as int));
            }
        }
        proof {
            assert(views(current@).subrange(0, current@.len() as int) =~= views(current@));
        }
    }
    let ghost start_acc: Seq<Seq<char>> = if absolute {
        Seq::empty()
    } else {
        views(current@)
    };
    proof {
        assert(views(acc@) =~= start_acc);
    }
    let mut i: usize = 0;
    while i < n
        invariant
            chars@ == full,
            n == full.len(),
            i <= n,
            apply_segments(views(acc@), split_slash(full, i as int)) == normalize_model(
                full,
                views(current@),
            ),
        decreases n - i,
    {
        if chars[i] == '/' {
            i = i + 1;
        } else {
            let mut j = i;
            while j < n && chars[j] != '/'
                invariant
                    chars@ == full,
                    n == full.len(),
                    i <= j <= n,
                    forall|k: int| i <= k < j ==> full[k] != '/',
                decreases n - j,
            {
                j = j + 1;
            }
            proof {
                lemma_next_slash(full, i as int);
                if next_slash(full, i as int) < j {
                    assert(full[next_slash(full, i as int)] == '/');
                }
                if next_slash(full, i as int) > j {
                    assert(j < n && full[j as int] == '/');
                }
                assert(next_slash(full, i as int) == j);
                assert(split_slash(full, i as int) == seq![full.subrange(i as int, j as int)]
                    + split_slash(full, j as int));
            }
            let seg = string_range(&chars, i, j);
            let ghost segs_here = split_slash(full, i as int);
            proof {
                assert(segs_here[0] == full.subrange(i as int, j as int));
                assert(segs_here.skip(1) =~= split_slash(full, j as int));
            }
            if str_eq(seg.as_str(), ".") {
                // stay in place
            } else if str_eq(seg.as_str(), "..") {
                proof {
                    assert(segs_here[0] == ".."@);
                }
                if acc.len() > 0 {
                    let ghost prev = acc@;
                    acc.pop();
                    proof {
                        assert(acc@ == prev.drop_last());
                        assert(views(acc@) =~= views(prev).drop_last());
                        assert(views(prev).len() > 0);
                        assert(apply_segments(views(prev), segs_here) == apply_segments(
                            views(prev).drop_last(),
                            segs_here.skip(1),
                        ));
                    }
                } else {
                    proof {
                        assert(views(acc@).len() == 0);
                        assert(apply_segments(views(acc@), segs_here) == apply_segments(
                            views(acc@),
                            segs_here.skip(1),
                        ));
                    }
                }
            } else {
                let ghost prev = acc@;
                acc.push(seg);
                proof {
                    prev.lemma_push_map_commute(|x: String| x@, acc@.last());
                    assert(views(acc@) =~= views(prev).push(full.subrange(i as int, j as int)));
                }
            }
            i = j;
        }
    }
    proof {
        assert(split_slash(full, n as int) == Seq::<Seq<char>>::empty());
    }
    acc
}

/// Resolves a path from the root node; the commands' one read path.
pub fn get_node<'a>(root: &'a Node, path: &[String]) -> (r: Option<&'a Node>)
    ensures
        match r {
            Option::Some(m) => lookup(*root, views(path@)) == Option::Some(*m),
            Option::None => lookup(*root, views(path@)) is None,
        },
{
    proof {
        assert(views(path@).skip(0) =~= views(path@));
    }
    get_node_from(root, path, 0)
}

fn get_node_from<'a>(node: &'a Node, path: &[String], i: usize) -> (r: Option<&'a Node>)
    requires
        i <= path@.len(),
    ensures
        match r {
            Option::Some(m) => lookup(*node, views(path@).skip(i as int)) == Option::Some(*m),
            Option::None => lookup(*node, views(path@).skip(i as int)) is None,
        },
    decreases path@.len() - i,
{
    let ghost pv = views(path@).skip(i as int);
    if i == path.len() {
        proof {
            assert(pv =~= Seq::<Seq<char>>::empty());
        }
        Option::Some(node)
    } else {
        proof {
            assert(pv[0] == path@[i as int]@);
            assert(pv.skip(1) =~= views(path@).skip(i + 1));
        }
        match node {
            Node::Directory { children, .. } => {
                match find_child_idx(children, path[i].as_str()) {
                    Option::Some(j) => get_node_from(&children[j].1, path, i + 1),
                    Option::None => Option::None,
                }
            },
            _ => Option::None,
        }
    }
}

/// The names a directory listing shows, in stored order — which
/// well-formedness keeps sorted ascending by name: directories with a
/// trailing slash, and files and symlinks only when not filtered out.
pub open spec fn entry_names(children: Seq<(String, Node)>, dirs_only: bool) -> Seq<Seq<char>>
    decreases children.len(),
{
    if children.len() == 0 {
        Seq::empty()
    } else {
        (match children[0].1 {
            Node::Directory { .. } => seq![children[0].0@ + "/"@],
            _ => if dirs_only {
                Seq::<Seq<char>>::empty()
            } else {
                seq![children[0].0@]
            },
        }) + entry_names(children.skip(1), dirs_only)
    }
}

/// `e` placed into `s` after every entry not above it: the insertion step
/// of a stable ascending sort.
pub open spec fn insert_sorted(s: Seq<Seq<char>>, e: Seq<char>) -> Seq<Seq<char>>
    decreases s.len(),
{
    if s.len() == 0 {
        seq![e]
    } else if crate::strutil::lex_lt(e, s[0]) {
        seq![e] + s
    } else {
        seq![s[0]] + insert_sorted(s.skip(1), e)
    }
}

/// The entries in ascending display order: an insertion sort, stable for
/// equal strings.
pub open spec fn sort_entries(s: Seq<Seq<char>>) -> Seq<Seq<char>>
    decreases s.len(),
{
    if s.len() == 0 {
        Seq::empty()
    } else {
        insert_sorted(sort_entries(s.drop_last()), s.last())
    }
}

/// Where the insertion step lands: before the first entry above `e`.
pub proof fn lemma_insert_sorted_at(s: Seq<Seq<char>>, e: Seq<char>, p: int)
    requires
        0 <= p <= s.len(),
        forall|k: int| 0 <= k < p ==> !crate::strutil::lex_lt(e, #[trigger] s[k]),
        p < s.len() ==> crate::strutil::lex_lt(e, s[p]),
    ensures
        insert_sorted(s, e) == s.take(p) + seq![e] + s.skip(p),
    decreases p,
{
    if s.len() == 0 {
        assert(s.take(0) + seq![e] + s.skip(0) =~= seq![e]);
    } else if p == 0 {
        assert(s.take(0) + seq![e] + s.skip(0) =~= seq![e] + s);
    } else {
        assert(!crate::strutil::lex_lt(e, s[0]));
        assert forall|k: int| 0 <= k < p - 1 implies !crate::strutil::lex_lt(
            e,
            #[trigger] s.skip(1)[k],
        ) by {
            assert(s.skip(1)[k] == s[k + 1]);
        }
        if p - 1 < s.skip(1).len() {
            assert(s.skip(1)[p - 1] == s[p as int]);
        }
        lemma_insert_sorted_at(s.skip(1), e, p - 1);
        assert(seq![s[0]] + (s.skip(1).take(p - 1) + seq![e] + s.skip(1).skip(p - 1)) =~= s.take(
            p,
        ) + seq![e] + s.skip(p));
    }
}

/// What the sort produces is ascending: no later entry is below an
/// earlier one.
pub proof fn lemma_sort_entries_sorted(s: Seq<Seq<char>>)
    ensures
        forall|i: int, j: int|
            0 <= i < j < sort_entries(s).len() ==> !crate::strutil::lex_lt(
                #[trigger] sort_entries(s)[j],
                #[trigger] sort_entries(s)[i],
            ),
    decreases s.len(),
{
    if s.len() > 0 {
        lemma_sort_entries_sorted(s.drop_last());
        lemma_insert_sorted_keeps_order(sort_entries(s.drop_last()), s.last());
    }
}

proof fn lemma_insert_sorted_keeps_order(s: Seq<Seq<char>>, e: Seq<char>)
    requires
        forall|i: int, j: int| 0 <= i < j < s.len() ==> !crate::strutil::lex_lt(
            #[trigger] s[j],
            #[trigger] s[i],
        ),
    ensures
        forall|i: int, j: int|
            0 <= i < j < insert_sorted(s, e).len() ==> !crate::strutil::lex_lt(
                #[trigger] insert_sorted(s, e)[j],
                #[trigger] insert_sorted(s, e)[i],
            ),
    decreases s.len(),
{
    if s.len() == 0 {
    } else if crate::strutil::lex_lt(e, s[0]) {
        let r = seq![e] + s;
        assert forall|i: int, j: int| 0 <= i < j < r.len() implies !crate::strutil::lex_lt(
            #[trigger] r[j],
            #[trigger] r[i],
        ) by {
            if i == 0 {
                // everything after e is at or above s[0], which is above e
                assert(r[j] == s[j - 1]);
                if j > 1 {
                    assert(!crate::strutil::lex_lt(s[j - 1], s[0]));
                }
                if crate::strutil::lex_lt(r[j], e) {
                    crate::strutil::lemma_lex_transitive(r[j], e, s[0]);
                    crate::strutil::lemma_lex_irreflexive(s[0]);
                }
            } else {
                assert(r[i] == s[i - 1] && r[j] == s[j - 1]);
            }
        }
    } else {
        assert forall|i: int, j: int| 0 <= i < j < s.skip(1).len() implies !crate::strutil::lex_lt(
            #[trigger] s.skip(1)[j],
            #[trigger] s.skip(1)[i],
        ) by {
            assert(s.skip(1)[i] == s[i + 1] && s.skip(1)[j] == s[j + 1]);
        }
        lemma_insert_sorted_keeps_order(s.skip(1), e);
        let inner = insert_sorted(s.skip(1), e);
        let r = seq![s[0]] + inner;
        assert forall|i: int, j: int| 0 <= i < j < r.len() implies !crate::strutil::lex_lt(
            #[trigger] r[j],
            #[trigger] r[i],
        ) by {
            if i == 0 {
                // each inner entry is either e (not below s[0]) or an s
                // entry at or above s[0]
                assert(r[j] == inner[j - 1]);
                lemma_insert_sorted_member(s.skip(1), e, j - 1);
                if inner[j - 1] == e {
                    if crate::strutil::lex_lt(e, s[0]) {
                    }
                } else {
                    let k = choose|k: int|
                        0 <= k < s.skip(1).len() && inner[j - 1] == #[trigger] s.skip(1)[k];
                    assert(s.skip(1)[k] == s[k + 1]);
                    assert(!crate::strutil::lex_lt(s[k + 1], s[0]));
                }
            } else {
                assert(r[i] == inner[i - 1] && r[j] == inner[j - 1]);
            }
        }
    }
}

/// Every entry of the insertion step is the new entry or one of the old.
proof fn lemma_insert_sorted_member(s: Seq<Seq<char>>, e: Seq<char>, i: int)
    requires
        0 <= i < insert_sorted(s, e).len(),
    ensures
        insert_sorted(s, e)[i] == e || exists|k: int|
            0 <= k < s.len() && insert_sorted(s, e)[i] == #[trigger] s[k],
    decreases s.len(),
{
    if s.len() == 0 {
    } else if crate::strutil::lex_lt(e, s[0]) {
        if i > 0 {
            assert((seq![e] + s)[i] == s[i - 1]);
        }
    } else {
        if i == 0 {
            assert((seq![s[0]] + insert_sorted(s.skip(1), e))[0] == s[0]);
        } else {
            lemma_insert_sorted_member(s.skip(1), e, i - 1);
            assert((seq![s[0]] + insert_sorted(s.skip(1), e))[i] == insert_sorted(
                s.skip(1),
                e,
            )[i - 1]);
            if insert_sorted(s.skip(1), e)[i - 1] != e {
                let k = choose|k: int|
                    0 <= k < s.skip(1).len() && insert_sorted(s.skip(1), e)[i - 1]
                        == #[trigger] s.skip(1)[k];
                assert(s.skip(1)[k] == s[k + 1]);
            }
        }
    }
}

/// Lists what tab completion offers at a path: nothing unless the path is
/// a directory.
pub fn autocomplete_entries(root: &Node, path: &[String], dirs_only: bool) -> (r: Vec<String>)
    ensures
        views(r@) == sort_entries(
            match lookup(*root, views(path@)) {
                Option::Some(m) => match m {
                    Node::Directory { children, .. } => entry_names(children@, dirs_only),
                    _ => Seq::<Seq<char>>::empty(),
                },
                Option::None => Seq::<Seq<char>>::empty(),
            },
        ),
{
    let mut out: Vec<String> = Vec::new();
    match get_node(root, path) {
        Option::Some(node) => {
            match node {
                Node::Directory { children, .. } => {
                    let mut k: usize = 0;
                    proof {
                        assert(children@.skip(0) =~= children@);
                    }
                    while k < children.len()
                        invariant
                            k <= children@.len(),
                            entry_names(children@, dirs_only) == views(out@) + entry_names(
                                children@.skip(k as int),
                                dirs_only,
                            ),
                        decreases children@.len() - k,
                    {
                        proof {
                            assert(children@.skip(k as int)[0] == children@[k as int]);
                            assert(children@.skip(k as int).skip(1) =~= children@.skip(k + 1));
                        }
                        let is_dir = match &children[k].1 {
                            Node::Directory { .. } => true,
                            _ => false,
                        };
                        if is_dir {
                            let ghost prev = out@;
                            out.push(children[k].0.clone().concat("/"));
                            proof {
                                prev.lemma_push_map_commute(|x: String| x@, out@.last());
                                assert(views(out@) =~= views(prev).push(
                                    children@[k as int].0@ + "/"@,
                                ));
                                assert(entry_names(children@, dirs_only) =~= views(out@)
                                    + entry_names(children@.skip(k + 1), dirs_only));
                            }
                        } else if !dirs_only {
                            let ghost prev = out@;
                            out.push(children[k].0.clone());
                            proof {
                                prev.lemma_push_map_commute(|x: String| x@, out@.last());
                                assert(views(out@) =~= views(prev).push(children@[k as int].0@));
                                assert(entry_names(children@, dirs_only) =~= views(out@)
                                    + entry_names(children@.skip(k + 1), dirs_only));
                            }
                        } else {
                            proof {
                                assert(entry_names(children@, dirs_only) =~= views(out@)
                                    + entry_names(children@.skip(k + 1), dirs_only));
                            }
                        }
                        k = k + 1;
                    }
                    proof {
                        assert(entry_names(children@.skip(children@.len() as int), dirs_only)
                            == Seq::<Seq<char>>::empty());
                        assert(views(out@) + Seq::<Seq<char>>::empty() =~= views(out@));
                    }
                    sort_display(out)
                },
                _ => {
                    proof {
                        assert(sort_entries(Seq::<Seq<char>>::empty())
                            == Seq::<Seq<char>>::empty());
                        assert(views(out@) =~= Seq::<Seq<char>>::empty());
                    }
                    out
                },
            }
        },
        Option::None => {
            proof {
                assert(sort_entries(Seq::<Seq<char>>::empty()) == Seq::<Seq<char>>::empty());
                assert(views(out@) =~= Seq::<Seq<char>>::empty());
            }
            out
        },
    }
}

/// Sorts display strings ascending, stable, by repeated sorted insertion.
fn sort_display(items: Vec<String>) -> (r: Vec<String>)
    ensures
        views(r@) == sort_entries(views(items@)),
{
    let mut sorted: Vec<String> = Vec::new();
    let mut k: usize = 0;
    proof {
        assert(views(items@).take(0) =~= Seq::<Seq<char>>::empty());
        assert(views(sorted@) =~= sort_entries(views(items@).take(0)));
    }
    while k < items.len()
        invariant
            k <= items@.len(),
            views(sorted@) == sort_entries(views(items@).take(k as int)),
        decreases items@.len() - k,
    {
        let e = items[k].clone();
        let mut p: usize = 0;
        while p < sorted.len() && !crate::strutil::str_lt(e.as_str(), sorted[p].as_str())
            invariant
                k < items@.len(),
                e@ == items@[k as int]@,
                views(sorted@) == sort_entries(views(items@).take(k as int)),
                p <= sorted@.len(),
                forall|q: int| 0 <= q < p ==> !crate::strutil::lex_lt(
                    e@,
                    #[trigger] views(sorted@)[q],
                ),
            decreases sorted@.len() - p,
        {
            proof {
                assert(views(sorted@)[p as int] == sorted@[p as int]@);
            }
            p = p + 1;
        }
        let ghost before = views(sorted@);
        proof {
            if p < sorted@.len() {
                assert(views(sorted@)[p as int] == sorted@[p as int]@);
            }
            lemma_insert_sorted_at(before, e@, p as int);
        }
        sorted.insert(p, e);
        proof {
            assert(views(sorted@) =~= before.take(p as int) + seq![items@[k as int]@]
                + before.skip(p as int));
            assert(views(items@).take(k + 1).drop_last() =~= views(items@).take(k as int));
            assert(views(items@).take(k + 1).last() == items@[k as int]@);
            assert(sort_entries(views(items@).take(k + 1)) == insert_sorted(
                sort_entries(views(items@).take(k as int)),
                items@[k as int]@,
            ));
        }
        k = k + 1;
    }
    proof {
        assert(views(items@).take(items@.len() as int) =~= views(items@));
    }
    sorted
}

/// Peeling the last step off a lookup: resolve the prefix, then one child
/// step.
pub proof fn lemma_lookup_snoc(n: Node, p: Seq<Seq<char>>, x: Seq<char>)
    ensures
        lookup(n, p.push(x)) == (match lookup(n, p) {
            Option::Some(m) => match m {
                Node::Directory { children, .. } => find_child(children@, x),
                _ => Option::None,
            },
            Option::None => Option::None,
        }),
    decreases p.len(),
{
    if p.len() == 0 {
        assert(p.push(x)[0] == x);
        assert(p.push(x).skip(1) =~= Seq::<Seq<char>>::empty());
        match n {
            Node::Directory { children, .. } => {
                match find_child(children@, x) {
                    Option::Some(c) => {
                        assert(lookup(n, p.push(x)) == lookup(c, p.push(x).skip(1)));
                    },
                    Option::None => {},
                }
            },
            _ => {},
        }
    } else {
        assert(p.push(x)[0] == p[0]);
        assert(p.push(x).skip(1) =~= p.skip(1).push(x));
        match n {
            Node::Directory { children, .. } => {
                match find_child(children@, p[0]) {
                    Option::Some(c) => {
                        lemma_lookup_snoc(c, p.skip(1), x);
                    },
                    Option::None => {},
                }
            },
            _ => {},
        }
    }
}

} // verus!




