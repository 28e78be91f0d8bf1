//! What crosses the boundary into a process we start, and what must not: the machine and the user
//! do, a project's own variables and the pane that happened to call do not.

use vstd::prelude::*;
use vstd::string::*;

use crate::text::{starts_with, str_eq};

verus! {

/// A variable that describes the machine or the user, never a project: one of a fixed list of
/// names, or any of the locale family.
pub open spec fn kept_spec(key: Seq<char>) -> bool {
    key == "HOME"@ || key == "LANG"@ || key == "LOGNAME"@ || key == "PATH"@ || key == "SHELL"@
        || key == "SSH_AUTH_SOCK"@ || key == "TMPDIR"@ || key == "USER"@ || key
        == "XDG_CACHE_HOME"@ || key == "XDG_CONFIG_HOME"@ || key == "XDG_DATA_HOME"@ || key
        == "XDG_STATE_HOME"@ || (key.len() >= 3 && key.subrange(0, 3) == "LC_"@)
}

/// A variable as plain values.
pub open spec fn pair_view(p: (String, String)) -> (Seq<char>, Seq<char>) {
    (p.0@, p.1@)
}

pub open spec fn pairs_view(v: Seq<(String, String)>) -> Seq<(Seq<char>, Seq<char>)> {
    v.map_values(|p: (String, String)| pair_view(p))
}

/// What of `env` crosses, in order.
pub open spec fn retained(env: Seq<(Seq<char>, Seq<char>)>) -> Seq<(Seq<char>, Seq<char>)> {
    env.filter(|p: (Seq<char>, Seq<char>)| kept_spec(p.0))
}

fn kept(key: &str) -> (r: bool)
    ensures
        r == kept_spec(key@),
{
    proof {
        reveal_strlit("LC_");
    }
    str_eq(key, "HOME") || str_eq(key, "LANG") || str_eq(key, "LOGNAME") || str_eq(key, "PATH")
        || str_eq(key, "SHELL") || str_eq(key, "SSH_AUTH_SOCK") || str_eq(key, "TMPDIR")
        || str_eq(key, "USER") || str_eq(key, "XDG_CACHE_HOME") || str_eq(key, "XDG_CONFIG_HOME")
        || str_eq(key, "XDG_DATA_HOME") || str_eq(key, "XDG_STATE_HOME") || starts_with(key, "LC_")
}

/// The variables that describe the machine and the user by name.
pub open spec fn machine_names() -> Seq<Seq<char>> {
    seq![
        "HOME"@, "LANG"@, "LOGNAME"@, "PATH"@, "SHELL"@, "SSH_AUTH_SOCK"@, "TMPDIR"@, "USER"@,
        "XDG_CACHE_HOME"@, "XDG_CONFIG_HOME"@, "XDG_DATA_HOME"@, "XDG_STATE_HOME"@,
    ]
}

/// One variable on its own crosses exactly when it is carried.
proof fn lemma_retained_one(key: Seq<char>, value: Seq<char>)
    ensures
        retained(seq![(key, value)]) == if kept_spec(key) {
            seq![(key, value)]
        } else {
            Seq::<(Seq<char>, Seq<char>)>::empty()
        },
{
    let keep = |p: (Seq<char>, Seq<char>)| kept_spec(p.0);
    Seq::<(Seq<char>, Seq<char>)>::empty().lemma_filter_push((key, value), keep);
    assert(Seq::<(Seq<char>, Seq<char>)>::empty().push((key, value)) =~= seq![(key, value)]);
    assert(Seq::<(Seq<char>, Seq<char>)>::empty().filter(keep) =~= Seq::<(Seq<char>, Seq<char>)>::empty()) by {
        reveal(Seq::filter);
    }
    assert(Seq::<(Seq<char>, Seq<char>)>::empty().push((key, value)) =~= seq![(key, value)]);
}

/// Each variable that describes the machine or the user reaches a spawned unit with its value,
/// the ssh agent's socket among them, and so does every locale variable; a project's own, such as
/// `PORT`, does not.
pub proof fn law_the_machine_and_the_user_cross(value: Seq<char>, locale: Seq<char>)
    ensures
        forall|i: int| 0 <= i < machine_names().len() ==> retained(seq![(#[trigger] machine_names()[i], value)])
            == seq![(machine_names()[i], value)],
        retained(seq![("LC_"@ + locale, value)]) == seq![("LC_"@ + locale, value)],
        retained(seq![("PORT"@, value)]) == Seq::<(Seq<char>, Seq<char>)>::empty(),
        forall|key: Seq<char>| !machine_names().contains(key) && !(key.len() >= 3 && key.subrange(0, 3) == "LC_"@)
            ==> #[trigger] retained(seq![(key, value)]) == Seq::<(Seq<char>, Seq<char>)>::empty(),
{
    reveal_strlit("HOME");
    reveal_strlit("LANG");
    reveal_strlit("LOGNAME");
    reveal_strlit("PATH");
    reveal_strlit("SHELL");
    reveal_strlit("SSH_AUTH_SOCK");
    reveal_strlit("TMPDIR");
    reveal_strlit("USER");
    reveal_strlit("XDG_CACHE_HOME");
    reveal_strlit("XDG_CONFIG_HOME");
    reveal_strlit("XDG_DATA_HOME");
    reveal_strlit("XDG_STATE_HOME");
    reveal_strlit("LC_");
    reveal_strlit("PORT");
    assert forall|i: int| 0 <= i < machine_names().len() implies retained(seq![(#[trigger] machine_names()[i], value)])
        == seq![(machine_names()[i], value)] by {
        lemma_retained_one(machine_names()[i], value);
    }
    let lc = "LC_"@ + locale;
    assert(lc.subrange(0, 3) =~= "LC_"@);
    lemma_retained_one(lc, value);
    lemma_retained_one("PORT"@, value);
    assert forall|key: Seq<char>| !machine_names().contains(key) && !(key.len() >= 3 && key.subrange(0, 3) == "LC_"@)
        implies #[trigger] retained(seq![(key, value)]) == Seq::<(Seq<char>, Seq<char>)>::empty() by {
        lemma_retained_one(key, value);
        let names = machine_names();
        assert(names[0] == "HOME"@ && names[1] == "LANG"@ && names[2] == "LOGNAME"@ && names[3] == "PATH"@);
        assert(names[4] == "SHELL"@ && names[5] == "SSH_AUTH_SOCK"@ && names[6] == "TMPDIR"@ && names[7] == "USER"@);
        assert(names[8] == "XDG_CACHE_HOME"@ && names[9] == "XDG_CONFIG_HOME"@ && names[10] == "XDG_DATA_HOME"@);
        assert(names[11] == "XDG_STATE_HOME"@);
        if kept_spec(key) {
            if key == "HOME"@ { assert(names.contains(key)); }
            if key == "LANG"@ { assert(names[1] == key); }
            if key == "LOGNAME"@ { assert(names[2] == key); }
            if key == "PATH"@ { assert(names[3] == key); }
            if key == "SHELL"@ { assert(names[4] == key); }
            if key == "SSH_AUTH_SOCK"@ { assert(names[5] == key); }
            if key == "TMPDIR"@ { assert(names[6] == key); }
            if key == "USER"@ { assert(names[7] == key); }
            if key == "XDG_CACHE_HOME"@ { assert(names[8] == key); }
            if key == "XDG_CONFIG_HOME"@ { assert(names[9] == key); }
            if key == "XDG_DATA_HOME"@ { assert(names[10] == key); }
            if key == "XDG_STATE_HOME"@ { assert(names[11] == key); }
        }
    }
    assert(!kept_spec("PORT"@)) by {
        assert("PORT"@[0] != "HOME"@[0] && "PORT"@[1] != "PATH"@[1] && "PORT"@[0] != "USER"@[0] && "PORT"@[0] != "LANG"@[0]);
        assert("PORT"@.subrange(0, 3)[0] != "LC_"@[0]);
    }
}

/// A variable that is not carried changes nothing of what is, wherever it stands among the rest.
pub proof fn law_a_dropped_variable_never_counts(
    before: Seq<(Seq<char>, Seq<char>)>,
    dropped: (Seq<char>, Seq<char>),
    after: Seq<(Seq<char>, Seq<char>)>,
)
    requires
        !kept_spec(dropped.0),
    ensures
        retained(before + seq![dropped] + after) == retained(before + after),
{
    let keep = |p: (Seq<char>, Seq<char>)| kept_spec(p.0);
    Seq::filter_distributes_over_add(before + seq![dropped], after, keep);
    Seq::filter_distributes_over_add(before, seq![dropped], keep);
    Seq::filter_distributes_over_add(before, after, keep);
    Seq::<(Seq<char>, Seq<char>)>::empty().lemma_filter_push(dropped, keep);
    assert(Seq::<(Seq<char>, Seq<char>)>::empty().push(dropped) =~= seq![dropped]);
    assert(Seq::<(Seq<char>, Seq<char>)>::empty().filter(keep) =~= Seq::<(Seq<char>, Seq<char>)>::empty()) by {
        reveal(Seq::filter);
    }
    assert(before.filter(keep) + Seq::<(Seq<char>, Seq<char>)>::empty() =~= before.filter(keep));
}

/// The variables of `env` that describe the machine and the user, each carried whole, in the
/// order they came.
pub fn retain(env: Vec<(String, String)>) -> (r: Vec<(String, String)>)
    ensures
        pairs_view(r@) == retained(pairs_view(env@)),
{
    let mut r: Vec<(String, String)> = Vec::new();
    let mut i: usize = 0;
    let n = env.len();
    while i < n
        invariant
            n == env@.len(),
            i <= n,
            pairs_view(r@) == retained(pairs_view(env@.subrange(0, i as int))),
        decreases n - i,
    {
        let ghost before = r@;
        let ghost prefix = pairs_view(env@.subrange(0, i as int));
        let ghost next = pairs_view(env@.subrange(0, i as int + 1));
        assert(next =~= prefix.push(pair_view(env@[i as int])));
        proof {
            prefix.lemma_filter_push(
                pair_view(env@[i as int]),
                |p: (Seq<char>, Seq<char>)| kept_spec(p.0),
            );
        }
        if kept(env[i].0.as_str()) {
            let pair = (env[i].0.clone(), env[i].1.clone());
            r.push(pair);
            assert(pairs_view(r@) =~= pairs_view(before).push(pair_view(pair)));
        }
        i += 1;
    }
    assert(env@.subrange(0, n as int) =~= env@);
    r
}


/// The environment a list of pairs sets: a later pair for a key wins.
pub open spec fn env_map(pairs: Seq<(Seq<char>, Seq<char>)>) -> Map<Seq<char>, Seq<char>>
    decreases pairs.len(),
{
    if pairs.len() == 0 {
        Map::empty()
    } else {
        env_map(pairs.drop_last()).insert(pairs.last().0, pairs.last().1)
    }
}

/// The pairs of `base` whose key `over` does not set, in order.
pub open spec fn unshadowed(base: Seq<(Seq<char>, Seq<char>)>, over: Seq<(Seq<char>, Seq<char>)>) -> Seq<(Seq<char>, Seq<char>)>
    decreases base.len(),
{
    if base.len() == 0 {
        Seq::empty()
    } else {
        let kept = unshadowed(base.drop_last(), over);
        if env_map(over).dom().contains(base.last().0) {
            kept
        } else {
            kept.push(base.last())
        }
    }
}

/// `over` laid on `base`: what `base` sets that `over` does not, then all of `over`.
pub open spec fn layered_spec(base: Seq<(Seq<char>, Seq<char>)>, over: Seq<(Seq<char>, Seq<char>)>) -> Seq<(Seq<char>, Seq<char>)> {
    unshadowed(base, over) + over
}

proof fn lemma_env_map_dom(pairs: Seq<(Seq<char>, Seq<char>)>, key: Seq<char>)
    ensures
        env_map(pairs).dom().contains(key) <==> exists|j: int| 0 <= j < pairs.len() && #[trigger] pairs[j].0 == key,
    decreases pairs.len(),
{
    if pairs.len() > 0 {
        lemma_env_map_dom(pairs.drop_last(), key);
        if env_map(pairs.drop_last()).dom().contains(key) {
            let j = choose|j: int| 0 <= j < pairs.drop_last().len() && #[trigger] pairs.drop_last()[j].0 == key;
            assert(pairs[j].0 == key);
        }
        if exists|j: int| 0 <= j < pairs.len() && #[trigger] pairs[j].0 == key {
            let j = choose|j: int| 0 <= j < pairs.len() && #[trigger] pairs[j].0 == key;
            if j < pairs.len() - 1 {
                assert(pairs.drop_last()[j].0 == key);
            }
        }
    }
}

pub proof fn lemma_env_map_concat(a: Seq<(Seq<char>, Seq<char>)>, b: Seq<(Seq<char>, Seq<char>)>)
    ensures
        env_map(a + b) == env_map(a).union_prefer_right(env_map(b)),
    decreases b.len(),
{
    if b.len() == 0 {
        assert(a + b =~= a);
        assert(env_map(a).union_prefer_right(env_map(b)) =~= env_map(a));
    } else {
        assert((a + b).drop_last() =~= a + b.drop_last());
        assert((a + b).last() == b.last());
        lemma_env_map_concat(a, b.drop_last());
        assert(env_map(a + b) =~= env_map(a).union_prefer_right(env_map(b)));
    }
}

proof fn lemma_unshadowed(base: Seq<(Seq<char>, Seq<char>)>, over: Seq<(Seq<char>, Seq<char>)>)
    ensures
        forall|k: Seq<char>| #[trigger] env_map(unshadowed(base, over)).dom().contains(k) <==> (env_map(base).dom().contains(k) && !env_map(over).dom().contains(k)),
        forall|k: Seq<char>| #[trigger] env_map(unshadowed(base, over)).dom().contains(k) ==> env_map(unshadowed(base, over))[k] == env_map(base)[k],
    decreases base.len(),
{
    if base.len() > 0 {
        let rest = base.drop_last();
        lemma_unshadowed(rest, over);
        let u = unshadowed(base, over);
        let ur = unshadowed(rest, over);
        let (k0, v0) = base.last();
        assert(env_map(base) == env_map(rest).insert(k0, v0));
        if env_map(over).dom().contains(k0) {
            assert(u == ur);
        } else {
            assert(u == ur.push(base.last()));
            assert(u.drop_last() =~= ur);
            assert(env_map(u) == env_map(ur).insert(k0, v0));
        }
        assert forall|k: Seq<char>| #[trigger] env_map(u).dom().contains(k) <==> (env_map(base).dom().contains(k) && !env_map(over).dom().contains(k)) by {
            assert(env_map(ur).dom().contains(k) <==> (env_map(rest).dom().contains(k) && !env_map(over).dom().contains(k)));
        }
        assert forall|k: Seq<char>| #[trigger] env_map(u).dom().contains(k) implies env_map(u)[k] == env_map(base)[k] by {
            if k != k0 {
                assert(env_map(ur).dom().contains(k));
                assert(env_map(ur)[k] == env_map(rest)[k]);
            }
        }
    }
}

/// Laying `over` on `base` sets every variable `over` sets to its value there, and every other
/// variable `base` sets to its value there: later layers win.
pub proof fn law_layers_win_inward(base: Seq<(Seq<char>, Seq<char>)>, over: Seq<(Seq<char>, Seq<char>)>)
    ensures
        env_map(layered_spec(base, over)) == env_map(base).union_prefer_right(env_map(over)),
{
    lemma_env_map_concat(unshadowed(base, over), over);
    lemma_unshadowed(base, over);
    assert(env_map(unshadowed(base, over)).union_prefer_right(env_map(over)) =~= env_map(base).union_prefer_right(env_map(over)));
}

/// Whether any pair of `pairs` sets `key`.
fn sets(pairs: &Vec<(String, String)>, key: &str) -> (r: bool)
    ensures
        r == env_map(pairs_view(pairs@)).dom().contains(key@),
{
    let ghost pv = pairs_view(pairs@);
    let mut i: usize = 0;
    while i < pairs.len()
        invariant
            i <= pairs@.len(),
            pv == pairs_view(pairs@),
            forall|j: int| 0 <= j < i ==> pv[j].0 != key@,
        decreases pairs.len() - i,
    {
        if str_eq(pairs[i].0.as_str(), key) {
            proof {
                assert(pv[i as int].0 == key@);
                lemma_env_map_dom(pv, key@);
            }
            return true;
        }
        i += 1;
    }
    proof {
        lemma_env_map_dom(pv, key@);
    }
    false
}

/// A copy of `pairs`.
pub fn copy_pairs(pairs: &Vec<(String, String)>) -> (r: Vec<(String, String)>)
    ensures
        pairs_view(r@) == pairs_view(pairs@),
{
    let mut r: Vec<(String, String)> = Vec::new();
    let mut i: usize = 0;
    while i < pairs.len()
        invariant
            i <= pairs@.len(),
            pairs_view(r@) == pairs_view(pairs@.subrange(0, i as int)),
        decreases pairs.len() - i,
    {
        let ghost before = r@;
        let pair = (pairs[i].0.clone(), pairs[i].1.clone());
        r.push(pair);
        assert(pairs_view(r@) =~= pairs_view(before).push(pair_view(pair)));
        assert(pairs_view(pairs@.subrange(0, i as int + 1)) =~= pairs_view(pairs@.subrange(0, i as int)).push(pair_view(pairs@[i as int])));
        i += 1;
    }
    assert(pairs@.subrange(0, pairs@.len() as int) =~= pairs@);
    r
}

/// `over` laid on `base`: what `base` sets that `over` does not, in its order, then all of `over`.
pub fn layered(base: &Vec<(String, String)>, over: &Vec<(String, String)>) -> (r: Vec<(String, String)>)
    ensures
        pairs_view(r@) == layered_spec(pairs_view(base@), pairs_view(over@)),
        env_map(pairs_view(r@)) == env_map(pairs_view(base@)).union_prefer_right(env_map(pairs_view(over@))),
{
    let ghost bv = pairs_view(base@);
    let ghost ov = pairs_view(over@);
    let mut r: Vec<(String, String)> = Vec::new();
    let mut i: usize = 0;
    while i < base.len()
        invariant
            i <= base@.len(),
            bv == pairs_view(base@),
            ov == pairs_view(over@),
            pairs_view(r@) == unshadowed(bv.subrange(0, i as int), ov),
        decreases base.len() - i,
    {
        assert(bv.subrange(0, i as int + 1).drop_last() =~= bv.subrange(0, i as int));
        assert(bv.subrange(0, i as int + 1).last() == pair_view(base@[i as int]));
        if !sets(over, base[i].0.as_str()) {
            let ghost before = r@;
            let pair = (base[i].0.clone(), base[i].1.clone());
            r.push(pair);
            assert(pairs_view(r@) =~= pairs_view(before).push(pair_view(pair)));
        }
        i += 1;
    }
    assert(bv.subrange(0, base@.len() as int) =~= bv);
    let ghost kept = r@;
    let mut k: usize = 0;
    while k < over.len()
        invariant
            k <= over@.len(),
            ov == pairs_view(over@),
            pairs_view(r@) == pairs_view(kept) + ov.subrange(0, k as int),
        decreases over.len() - k,
    {
        let ghost before = r@;
        let pair = (over[k].0.clone(), over[k].1.clone());
        r.push(pair);
        assert(pairs_view(r@) =~= pairs_view(before).push(pair_view(pair)));
        assert(ov.subrange(0, k as int + 1) =~= ov.subrange(0, k as int).push(ov[k as int]));
        k += 1;
    }
    assert(ov.subrange(0, over@.len() as int) =~= ov);
    proof {
        law_layers_win_inward(bv, ov);
    }
    r
}

} // verus!
