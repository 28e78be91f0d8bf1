//! Hanging a new pane off a full edge of the focused tab: which edge asks for which split, where a
//! tab's panes sit, and the moves that replay a tab's layout into a fresh one, top down.
//!
//! Nothing in Herdr hangs a pane off a tab's root: a split always subdivides a single pane, a move
//! within one tab is refused, and re-applying a layout respawns every terminal in it. A move to
//! another tab is the one primitive that keeps pane ids and live terminals, so the tab is replayed
//! into a fresh one with the new pane hung off the new root.

use vstd::prelude::*;
use vstd::string::*;

use crate::json::{as_str, get, get_spec, held, member, str_spec, Json};
use crate::text::{opt_view, str_eq};

verus! {

/// The member `key` names lies in `members`.
pub proof fn lemma_member_in(members: Seq<(String, Json)>, key: Seq<char>)
    ensures
        member(members, key) matches Some(v) ==> exists|i: int| 0 <= i < members.len() && members[i].1 == v,
    decreases members.len(),
{
    if members.len() > 0 {
        lemma_member_in(members.drop_last(), key);
        match member(members.drop_last(), key) {
            Some(v) => {
                let i = choose|i: int| 0 <= i < members.drop_last().len() && members.drop_last()[i].1 == v;
                assert(members[i] == members.drop_last()[i]);
            },
            None => {
                assert(members[members.len() - 1] == members.last());
            },
        }
    }
}

/// Whether a layout node is a pane rather than a split.
pub open spec fn is_pane(node: Json) -> bool {
    str_spec(get_spec(node, "type"@)) == Some("pane"@)
}

/// The pane a split's subtree leads with: its first child, all the way down.
pub open spec fn leftmost_spec(node: Json) -> Option<Seq<char>>
    decreases node,
{
    if is_pane(node) {
        str_spec(get_spec(node, "pane_id"@))
    } else {
        match node {
            Json::Object(members) => match member(members@, "first"@) {
                Some(first) => {
                    proof {
                        lemma_member_in(members@, "first"@);
                        let i = choose|i: int| 0 <= i < members@.len() && members@[i].1 == first;
                        assert(decreases_to!(node => members));
                        assert(decreases_to!(members => members@));
                        assert(decreases_to!(members@ => members@[i]));
                        assert(decreases_to!(members@[i] => members@[i].1));
                    }
                    leftmost_spec(first)
                },
                None => None,
            },
            _ => None,
        }
    }
}

/// A member of a node is smaller than the node, so a walk down a layout ends.
pub proof fn lemma_get_smaller(node: Json, key: Seq<char>)
    ensures
        get_spec(node, key) matches Some(v) ==> decreases_to!(node => v),
{
    match node {
        Json::Object(members) => {
            lemma_member_in(members@, key);
            match member(members@, key) {
                Some(v) => {
                    let i = choose|i: int| 0 <= i < members@.len() && members@[i].1 == v;
                    assert(decreases_to!(node => members));
                    assert(decreases_to!(members => members@));
                    assert(decreases_to!(members@ => members@[i]));
                    assert(decreases_to!(members@[i] => members@[i].1));
                },
                None => {},
            }
        },
        _ => {},
    }
}

fn pane_node(node: &Json) -> (r: bool)
    ensures
        r == is_pane(*node),
{
    match as_str(get(node, "type")) {
        Some(t) => {
            proof {
                reveal_strlit("pane");
            }
            str_eq(t, "pane")
        },
        None => false,
    }
}

pub fn leftmost(node: &Json) -> (r: Option<String>)
    ensures
        opt_view(r) == leftmost_spec(*node),
    decreases node,
{
    if pane_node(node) {
        return match as_str(get(node, "pane_id")) {
            Some(id) => Some(String::from_str(id)),
            None => None,
        };
    }
    match node {
        Json::Object(_) => match get(node, "first") {
            Some(first) => {
                proof {
                    lemma_get_smaller(*node, "first"@);
                }
                leftmost(first)
            },
            None => None,
        },
        _ => None,
    }
}

/// The directory of the pane `target` in a layout, if it is there and says one.
pub open spec fn find_cwd_spec(node: Json, target: Seq<char>) -> Option<Seq<char>>
    decreases node,
{
    if is_pane(node) {
        if str_spec(get_spec(node, "pane_id"@)) == Some(target) {
            str_spec(get_spec(node, "cwd"@))
        } else {
            None
        }
    } else {
        match node {
            Json::Object(members) => {
                let in_first = match member(members@, "first"@) {
                    Some(first) => {
                        proof {
                            lemma_get_smaller(node, "first"@);
                        }
                        find_cwd_spec(first, target)
                    },
                    None => None,
                };
                if in_first is Some {
                    in_first
                } else {
                    match member(members@, "second"@) {
                        Some(second) => {
                            proof {
                                lemma_get_smaller(node, "second"@);
                            }
                            find_cwd_spec(second, target)
                        },
                        None => None,
                    }
                }
            },
            _ => None,
        }
    }
}

pub fn find_cwd(node: &Json, target: &str) -> (r: Option<String>)
    ensures
        opt_view(r) == find_cwd_spec(*node, target@),
    decreases node,
{
    if pane_node(node) {
        let here = match as_str(get(node, "pane_id")) {
            Some(id) => str_eq(id, target),
            None => false,
        };
        if here {
            return match as_str(get(node, "cwd")) {
                Some(cwd) => Some(String::from_str(cwd)),
                None => None,
            };
        }
        return None;
    }
    match node {
        Json::Object(_) => {
            let in_first = match get(node, "first") {
                Some(first) => {
                    proof {
                        lemma_get_smaller(*node, "first"@);
                    }
                    find_cwd(first, target)
                },
                None => None,
            };
            if in_first.is_some() {
                return in_first;
            }
            match get(node, "second") {
                Some(second) => {
                    proof {
                        lemma_get_smaller(*node, "second"@);
                    }
                    find_cwd(second, target)
                },
                None => None,
            }
        },
        _ => None,
    }
}

/// Which child of a split: the first or the second.
#[derive(Debug, Clone, Copy, PartialEq, Eq)]
pub enum Branch {
    First,
    Second,
}

/// One pane moved into the fresh tab: `pane_id` is split off `target_pane_id`, in the direction
/// and at the ratio of the split that `at` leads to from the layout's root.
#[derive(Debug, Clone, PartialEq, Eq)]
pub struct Move {
    pub pane_id: String,
    pub target_pane_id: String,
    pub at: Vec<Branch>,
}

pub open spec fn move_view(m: Move) -> (Seq<char>, Seq<char>, Seq<Branch>) {
    (m.pane_id@, m.target_pane_id@, m.at@)
}

pub open spec fn moves_view(v: Seq<Move>) -> Seq<(Seq<char>, Seq<char>, Seq<Branch>)> {
    v.map_values(|m: Move| move_view(m))
}

/// The moves that recreate `node`'s subtree in a fresh tab where `anchor` already sits in its
/// slot: each split brings its second subtree's leading pane in beside the first's, then each half
/// is rebuilt around its own leading pane. Nothing when a split lacks a child or a leaf its id.
pub open spec fn moves_spec(node: Json, anchor: Seq<char>, at: Seq<Branch>) -> Option<Seq<(Seq<char>, Seq<char>, Seq<Branch>)>>
    decreases node,
{
    if is_pane(node) {
        Some(Seq::empty())
    } else {
        match node {
            Json::Object(members) => match (member(members@, "first"@), member(members@, "second"@)) {
                (Some(first), Some(second)) => match leftmost_spec(second) {
                    None => None,
                    Some(incoming) => {
                        proof {
                            lemma_get_smaller(node, "first"@);
                            lemma_get_smaller(node, "second"@);
                        }
                        match (
                            moves_spec(first, anchor, at.push(Branch::First)),
                            moves_spec(second, incoming, at.push(Branch::Second)),
                        ) {
                            (Some(a), Some(b)) => Some(seq![(incoming, anchor, at)] + a + b),
                            _ => None,
                        }
                    },
                },
                _ => None,
            },
            _ => None,
        }
    }
}

fn branches(at: &Vec<Branch>, next: Branch) -> (r: Vec<Branch>)
    ensures
        r@ == at@.push(next),
{
    let mut r: Vec<Branch> = Vec::new();
    let mut i: usize = 0;
    while i < at.len()
        invariant
            i <= at@.len(),
            r@ == at@.subrange(0, i as int),
        decreases at.len() - i,
    {
        r.push(at[i]);
        assert(r@ =~= at@.subrange(0, i as int + 1));
        i += 1;
    }
    r.push(next);
    assert(r@ =~= at@.push(next));
    r
}

fn moves_at(node: &Json, anchor: &str, at: &Vec<Branch>) -> (r: Option<Vec<Move>>)
    ensures
        match (r, moves_spec(*node, anchor@, at@)) {
            (Some(v), Some(w)) => moves_view(v@) == w,
            (None, None) => true,
            _ => false,
        },
    decreases node,
{
    if pane_node(node) {
        let v: Vec<Move> = Vec::new();
        assert(moves_view(v@) =~= Seq::empty());
        return Some(v);
    }
    match node {
        Json::Object(_) => {
            let (first, second) = match (get(node, "first"), get(node, "second")) {
                (Some(f), Some(s)) => (f, s),
                _ => return None,
            };
            let incoming = match leftmost(second) {
                Some(i) => i,
                None => return None,
            };
            proof {
                lemma_get_smaller(*node, "first"@);
                lemma_get_smaller(*node, "second"@);
            }
            let at_first = branches(at, Branch::First);
            let at_second = branches(at, Branch::Second);
            let mut a = match moves_at(first, anchor, &at_first) {
                Some(a) => a,
                None => return None,
            };
            let mut b = match moves_at(second, incoming.as_str(), &at_second) {
                Some(b) => b,
                None => return None,
            };
            let mut r: Vec<Move> = Vec::new();
            let here = Move { pane_id: incoming.clone(), target_pane_id: String::from_str(anchor), at: branches_copy(at) };
            r.push(here);
            let ghost lead = moves_view(r@);
            let ghost av = moves_view(a@);
            let ghost bv = moves_view(b@);
            r.append(&mut a);
            assert(moves_view(r@) =~= lead + av);
            let ghost mid = moves_view(r@);
            r.append(&mut b);
            assert(moves_view(r@) =~= mid + bv);
            assert(lead =~= seq![(incoming@, anchor@, at@)]);
            Some(r)
        },
        _ => None,
    }
}

fn branches_copy(at: &Vec<Branch>) -> (r: Vec<Branch>)
    ensures
        r@ == at@,
{
    let mut r: Vec<Branch> = Vec::new();
    let mut i: usize = 0;
    while i < at.len()
        invariant
            i <= at@.len(),
            r@ == at@.subrange(0, i as int),
        decreases at.len() - i,
    {
        r.push(at[i]);
        assert(r@ =~= at@.subrange(0, i as int + 1));
        i += 1;
    }
    assert(r@ =~= at@);
    r
}

/// The moves that replay the layout under `root` into a fresh tab seeded with `anchor`.
pub fn moves(root: &Json, anchor: &str) -> (r: Option<Vec<Move>>)
    ensures
        match (r, moves_spec(*root, anchor@, Seq::empty())) {
            (Some(v), Some(w)) => moves_view(v@) == w,
            (None, None) => true,
            _ => false,
        },
{
    let at: Vec<Branch> = Vec::new();
    assert(at@ =~= Seq::<Branch>::empty());
    moves_at(root, anchor, &at)
}

/// The panes of a layout, in order, each that says its id.
pub open spec fn panes_spec(node: Json) -> Seq<Seq<char>>
    decreases node,
{
    if is_pane(node) {
        match str_spec(get_spec(node, "pane_id"@)) {
            Some(id) => seq![id],
            None => Seq::empty(),
        }
    } else {
        match node {
            Json::Object(members) => match (member(members@, "first"@), member(members@, "second"@)) {
                (Some(first), Some(second)) => {
                    proof {
                        lemma_get_smaller(node, "first"@);
                        lemma_get_smaller(node, "second"@);
                    }
                    panes_spec(first) + panes_spec(second)
                },
                _ => Seq::empty(),
            },
            _ => Seq::empty(),
        }
    }
}

/// The panes a list of moves brings over, in order.
pub open spec fn moved(ms: Seq<(Seq<char>, Seq<char>, Seq<Branch>)>) -> Seq<Seq<char>> {
    ms.map_values(|m: (Seq<char>, Seq<char>, Seq<Branch>)| m.0)
}

/// Whether the pane the `k`th move splits off is already in the fresh tab by then: the anchor the
/// tab was seeded with, or a pane an earlier move brought.
pub open spec fn lands_beside_placed(anchor: Seq<char>, ms: Seq<(Seq<char>, Seq<char>, Seq<Branch>)>, k: int) -> bool {
    ms[k].1 == anchor || exists|j: int| 0 <= j < k && #[trigger] ms[j].0 == ms[k].1
}

/// Replaying a tab leaves no pane behind and brings none twice: the anchor and the panes the moves
/// bring are the tab's panes, each once.
pub proof fn law_every_pane_is_moved_once(node: Json, at: Seq<Branch>)
    requires
        leftmost_spec(node) is Some,
        moves_spec(node, leftmost_spec(node)->0, at) is Some,
    ensures
        (seq![leftmost_spec(node)->0] + moved(moves_spec(node, leftmost_spec(node)->0, at)->0)).to_multiset()
            == panes_spec(node).to_multiset(),
    decreases node,
{
    broadcast use vstd::seq_lib::lemma_multiset_commutative;
    let a = leftmost_spec(node)->0;
    if is_pane(node) {
        assert(seq![a] + moved(Seq::empty()) =~= seq![a]);
    } else {
        match node {
            Json::Object(members) => match (member(members@, "first"@), member(members@, "second"@)) {
                (Some(first), Some(second)) => {
                    lemma_get_smaller(node, "first"@);
                    lemma_get_smaller(node, "second"@);
                    let inc = leftmost_spec(second)->0;
                    let ma = moves_spec(first, a, at.push(Branch::First))->0;
                    let mb = moves_spec(second, inc, at.push(Branch::Second))->0;
                    let ms = moves_spec(node, a, at)->0;
                    assert(ms == seq![(inc, a, at)] + ma + mb);
                    law_every_pane_is_moved_once(first, at.push(Branch::First));
                    law_every_pane_is_moved_once(second, at.push(Branch::Second));
                    assert(moved(ms) =~= seq![inc] + moved(ma) + moved(mb));
                    let whole = seq![a] + moved(ms);
                    assert(whole =~= (seq![a] + seq![inc]) + (moved(ma) + moved(mb)));
                    assert((seq![a] + seq![inc]).to_multiset() == seq![inc].to_multiset().add(seq![a].to_multiset()));
                    assert((moved(ma) + moved(mb)).to_multiset() == moved(ma).to_multiset().add(moved(mb).to_multiset()));
                    assert((seq![a] + moved(ma)).to_multiset() == panes_spec(first).to_multiset());
                    assert((seq![inc] + moved(mb)).to_multiset() == panes_spec(second).to_multiset());
                    assert((panes_spec(first) + panes_spec(second)).to_multiset() == panes_spec(first).to_multiset().add(
                        panes_spec(second).to_multiset(),
                    ));
                    assert(whole.to_multiset() =~= panes_spec(node).to_multiset());
                },
                _ => {},
            },
            _ => {},
        }
    }
}

/// Replaying a tab never splits off a pane that is not there yet: each move lands beside the
/// anchor or beside a pane an earlier move brought.
pub proof fn law_each_move_lands_beside_a_pane_already_there(node: Json, anchor: Seq<char>, at: Seq<Branch>)
    requires
        moves_spec(node, anchor, at) is Some,
    ensures
        forall|k: int| 0 <= k < moves_spec(node, anchor, at)->0.len() ==> lands_beside_placed(anchor, moves_spec(node, anchor, at)->0, k),
    decreases node,
{
    if !is_pane(node) {
        match node {
            Json::Object(members) => match (member(members@, "first"@), member(members@, "second"@)) {
                (Some(first), Some(second)) => {
                    lemma_get_smaller(node, "first"@);
                    lemma_get_smaller(node, "second"@);
                    let inc = leftmost_spec(second)->0;
                    let ma = moves_spec(first, anchor, at.push(Branch::First))->0;
                    let mb = moves_spec(second, inc, at.push(Branch::Second))->0;
                    let ms = moves_spec(node, anchor, at)->0;
                    assert(ms == seq![(inc, anchor, at)] + ma + mb);
                    law_each_move_lands_beside_a_pane_already_there(first, anchor, at.push(Branch::First));
                    law_each_move_lands_beside_a_pane_already_there(second, inc, at.push(Branch::Second));
                    assert forall|k: int| 0 <= k < ms.len() implies lands_beside_placed(anchor, ms, k) by {
                        if k == 0 {
                        } else if k < 1 + ma.len() {
                            assert(ms[k] == ma[k - 1]);
                            assert(lands_beside_placed(anchor, ma, k - 1));
                            if ma[k - 1].1 != anchor {
                                let j = choose|j: int| 0 <= j < k - 1 && #[trigger] ma[j].0 == ma[k - 1].1;
                                assert(ms[j + 1] == ma[j]);
                            }
                        } else {
                            let kb = k - 1 - ma.len();
                            assert(ms[k] == mb[kb]);
                            assert(lands_beside_placed(inc, mb, kb));
                            if mb[kb].1 == inc {
                                assert(ms[0].0 == inc);
                            } else {
                                let j = choose|j: int| 0 <= j < kb && #[trigger] mb[j].0 == mb[kb].1;
                                assert(ms[j + 1 + ma.len()] == mb[j]);
                            }
                        }
                    }
                },
                _ => {},
            },
            _ => {},
        }
    }
}

/// The edge of the tab a new pane is hung off.
#[derive(Debug, Clone, Copy, PartialEq, Eq)]
pub enum Side {
    Top,
    Bottom,
    Left,
    Right,
}

impl Side {
    /// The edge an argument names, if it names one.
    pub fn named(arg: &str) -> (r: Option<Side>)
        ensures
            r == if arg@ == "top"@ {
                Some(Side::Top)
            } else if arg@ == "bottom"@ {
                Some(Side::Bottom)
            } else if arg@ == "left"@ {
                Some(Side::Left)
            } else if arg@ == "right"@ {
                Some(Side::Right)
            } else {
                None
            },
    {
        if str_eq(arg, "top") {
            Some(Side::Top)
        } else if str_eq(arg, "bottom") {
            Some(Side::Bottom)
        } else if str_eq(arg, "left") {
            Some(Side::Left)
        } else if str_eq(arg, "right") {
            Some(Side::Right)
        } else {
            None
        }
    }

    /// The split that puts the new pane on this edge's axis: below for top and bottom, beside for
    /// left and right.
    pub fn direction(self) -> (r: &'static str)
        ensures
            r@ == match self {
                Side::Top | Side::Bottom => "down"@,
                Side::Left | Side::Right => "right"@,
            },
    {
        proof {
            reveal_strlit("down");
            reveal_strlit("right");
        }
        match self {
            Side::Top | Side::Bottom => "down",
            Side::Left | Side::Right => "right",
        }
    }

    /// A split can only append, so a leading edge is reached by swapping the pair back.
    pub fn leads(self) -> (r: bool)
        ensures
            r == (self == Side::Top || self == Side::Left),
    {
        match self {
            Side::Top | Side::Left => true,
            _ => false,
        }
    }
}

/// Whether a tab of the tab list is in the workspace named.
pub open spec fn in_workspace(tab: Json, workspace: Option<Seq<char>>) -> bool {
    str_spec(get_spec(tab, "workspace_id"@)) == workspace
}

/// Where in `tabs` the tabs of the workspace sit, in order.
pub open spec fn sibling_indices(tabs: Seq<Json>, workspace: Option<Seq<char>>) -> Seq<int>
    decreases tabs.len(),
{
    if tabs.len() == 0 {
        Seq::empty()
    } else {
        let before = sibling_indices(tabs.drop_last(), workspace);
        if in_workspace(tabs.last(), workspace) {
            before.push(tabs.len() - 1)
        } else {
            before
        }
    }
}

/// The first of `indices` whose tab is `tab`.
pub open spec fn first_named(tabs: Seq<Json>, indices: Seq<int>, tab: Option<Seq<char>>) -> Option<int>
    decreases indices.len(),
{
    if indices.len() == 0 {
        None
    } else {
        match first_named(tabs, indices.drop_last(), tab) {
            Some(k) => Some(k),
            None => if str_spec(get_spec(tabs[indices.last()], "tab_id"@)) == tab {
                Some(indices.len() - 1)
            } else {
                None
            },
        }
    }
}

/// Where the focused tab stands among its workspace's tabs, the first when it is not found
/// there, and where that tab is in `tabs`; nothing when the workspace has no tabs at all.
pub open spec fn sibling_spec(tabs: Seq<Json>, workspace: Option<Seq<char>>, tab: Option<Seq<char>>) -> Option<(int, int)> {
    let indices = sibling_indices(tabs, workspace);
    if indices.len() == 0 {
        None
    } else {
        let k = match first_named(tabs, indices, tab) {
            Some(k) => k,
            None => 0,
        };
        Some((k, indices[k]))
    }
}

pub fn sibling(tabs: &Vec<Json>, workspace: Option<&str>, tab: Option<&str>) -> (r: Option<(usize, usize)>)
    ensures
        match (r, sibling_spec(tabs@, opt_str(workspace), opt_str(tab))) {
            (Some((k, j)), Some((k2, j2))) => k == k2 && j == j2,
            (None, None) => true,
            _ => false,
        },
{
    let ghost ws = opt_str(workspace);
    let ghost tn = opt_str(tab);
    let mut indices: Vec<usize> = Vec::new();
    let mut found: Option<usize> = None;
    let mut i: usize = 0;
    while i < tabs.len()
        invariant
            i <= tabs@.len(),
            ws == opt_str(workspace),
            tn == opt_str(tab),
            indices@.map_values(|x: usize| x as int) == sibling_indices(tabs@.subrange(0, i as int), ws),
            forall|j: int| 0 <= j < indices@.len() ==> indices@[j] < i,
            match found {
                Some(k) => first_named(tabs@, indices@.map_values(|x: usize| x as int), tn) == Some(k as int),
                None => first_named(tabs@, indices@.map_values(|x: usize| x as int), tn) is None,
            },
        decreases tabs.len() - i,
    {
        let ghost before = indices@.map_values(|x: usize| x as int);
        assert(tabs@.subrange(0, i as int + 1).drop_last() =~= tabs@.subrange(0, i as int));
        assert(tabs@.subrange(0, i as int + 1).last() == tabs@[i as int]);
        let ours = match (as_str(get(&tabs[i], "workspace_id")), workspace) {
            (Some(a), Some(b)) => str_eq(a, b),
            (None, None) => true,
            _ => false,
        };
        if ours {
            indices.push(i);
            assert(indices@.map_values(|x: usize| x as int) =~= before.push(i as int));
            let named = match (as_str(get(&tabs[i], "tab_id")), tab) {
                (Some(a), Some(b)) => str_eq(a, b),
                (None, None) => true,
                _ => false,
            };
            let ghost now = indices@.map_values(|x: usize| x as int);
            assert(now.drop_last() =~= before);
            assert(now.last() == i as int);
            if found.is_none() && named {
                found = Some(indices.len() - 1);
            }
        }
        i += 1;
    }
    assert(tabs@.subrange(0, tabs@.len() as int) =~= tabs@);
    if indices.len() == 0 {
        return None;
    }
    let k: usize = match found {
        Some(k) => k,
        None => 0,
    };
    proof {
        if found is Some {
            lemma_first_named_bound(tabs@, indices@.map_values(|x: usize| x as int), tn);
        }
    }
    Some((k, indices[k]))
}

proof fn lemma_first_named_bound(tabs: Seq<Json>, indices: Seq<int>, tab: Option<Seq<char>>)
    ensures
        first_named(tabs, indices, tab) matches Some(k) ==> 0 <= k < indices.len(),
    decreases indices.len(),
{
    if indices.len() > 0 {
        lemma_first_named_bound(tabs, indices.drop_last(), tab);
    }
}

pub open spec fn opt_str(s: Option<&str>) -> Option<Seq<char>> {
    match s {
        Some(t) => Some(t@),
        None => None,
    }
}

} // verus!
