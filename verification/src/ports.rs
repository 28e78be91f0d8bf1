//! Which ports a local unit is listening on, observed rather than declared: what `lsof` says is
//! bound, joined to units by process group through the process table.

use std::collections::{BTreeMap, BTreeSet};

use vstd::prelude::*;
use vstd::std_specs::iter::IteratorSpec;

use crate::text::{lines, lines_of, parse_unsigned, parse_unsigned_spec, split_whitespace, words_of};

verus! {

broadcast use {vstd::std_specs::btree::group_btree_axioms, vstd::laws_cmp::group_laws_cmp};

/// Listening ports keyed by process.
pub open spec fn ports_view(m: BTreeMap<u32, BTreeSet<u16>>) -> Map<u32, Set<u16>> {
    Map::new(|k: u32| m@.contains_key(k), |k: u32| m@[k]@)
}

/// Where `c` last stands in `s`.
pub open spec fn last_index(s: Seq<char>, c: char) -> Option<int>
    decreases s.len(),
{
    if s.len() == 0 {
        None
    } else if s.last() == c {
        Some(s.len() - 1)
    } else {
        last_index(s.drop_last(), c)
    }
}

/// The port an address ends in: `*:5432`, `127.0.0.1:3000` and `[::1]:3000` all end in it, and a v6
/// address is full of the separator, so only the last one counts.
pub open spec fn port_of_spec(address: Seq<char>) -> Option<u16> {
    match last_index(address, ':') {
        None => None,
        Some(i) => match parse_unsigned_spec(address.skip(i + 1), 65535) {
            Some(v) => Some(v as u16),
            None => None,
        },
    }
}

pub fn port_of(address: &Vec<char>, from: usize) -> (r: Option<u16>)
    requires
        from <= address@.len(),
    ensures
        r == port_of_spec(address@.skip(from as int)),
{
    let ghost a = address@.skip(from as int);
    let mut k = address.len();
    assert(a.subrange(0, (k - from) as int) =~= a);
    while k > from
        invariant
            from <= k <= address@.len(),
            a == address@.skip(from as int),
            last_index(a, ':') == last_index(a.subrange(0, (k - from) as int), ':'),
        decreases k,
    {
        let ghost pre = a.subrange(0, (k - from) as int);
        assert(pre.last() == address@[k - 1]);
        assert(pre.drop_last() =~= a.subrange(0, (k - 1 - from) as int));
        if address[k - 1] == ':' {
            let ghost i = (k - 1 - from) as int;
            assert(a.skip(i + 1) =~= address@.subrange(k as int, address@.len() as int));
            return match parse_unsigned(address, k, address.len(), 65535) {
                Some(v) => Some(v as u16),
                None => None,
            };
        }
        k -= 1;
    }
    assert(a.subrange(0, 0) =~= Seq::<char>::empty());
    None
}

/// What `lsof -F pn` has said so far: the ports found under each pid, and the pid the next address
/// belongs to.
pub open spec fn lsof_step(state: (Map<u32, Set<u16>>, Option<u32>), line: Seq<char>) -> (
    Map<u32, Set<u16>>,
    Option<u32>,
) {
    let (found, pid) = state;
    if line.len() > 0 && line[0] == 'p' {
        (
            found,
            match parse_unsigned_spec(line.skip(1), 0xffff_ffff) {
                Some(v) => Some(v as u32),
                None => None,
            },
        )
    } else if line.len() > 0 && line[0] == 'n' {
        match (pid, port_of_spec(line.skip(1))) {
            (Some(p), Some(port)) => (
                found.insert(
                    p,
                    if found.contains_key(p) {
                        found[p]
                    } else {
                        Set::empty()
                    }.insert(port),
                ),
                pid,
            ),
            _ => state,
        }
    } else {
        state
    }
}

pub open spec fn lsof_fold(lines: Seq<Seq<char>>) -> (Map<u32, Set<u16>>, Option<u32>)
    decreases lines.len(),
{
    if lines.len() == 0 {
        (Map::empty(), None)
    } else {
        lsof_step(lsof_fold(lines.drop_last()), lines.last())
    }
}

/// `lsof -nP -iTCP -sTCP:LISTEN -F pn` read: a `p<pid>` line, then an `n<address>` line per socket
/// under it; a line that is neither is passed over.
pub fn parse_lsof(text: &str) -> (r: BTreeMap<u32, BTreeSet<u16>>)
    ensures
        ports_view(r) == lsof_fold(lines_of(text@)).0,
{
    let ls = lines(text);
    let ghost lv = ls@.map_values(|l: Vec<char>| l@);
    let mut found: BTreeMap<u32, BTreeSet<u16>> = BTreeMap::new();
    let mut pid: Option<u32> = None;
    let mut i: usize = 0;
    assert(ports_view(found) =~= Map::<u32, Set<u16>>::empty());
    while i < ls.len()
        invariant
            i <= ls@.len(),
            lv == ls@.map_values(|l: Vec<char>| l@),
            lv == lines_of(text@),
            (ports_view(found), pid) == lsof_fold(lv.subrange(0, i as int)),
        decreases ls.len() - i,
    {
        let line = &ls[i];
        assert(lv.subrange(0, i as int + 1).drop_last() =~= lv.subrange(0, i as int));
        assert(lv.subrange(0, i as int + 1).last() == line@);
        if line.len() > 0 && line[0] == 'p' {
            assert(line@.skip(1) =~= line@.subrange(1, line@.len() as int));
            pid = match parse_unsigned(line, 1, line.len(), 0xffff_ffff) {
                Some(v) => Some(v as u32),
                None => None,
            };
        } else if line.len() > 0 && line[0] == 'n' {
            let port = port_of(line, 1);
            match (pid, port) {
                (Some(p), Some(port)) => {
                    let ghost before = ports_view(found);
                    let mut set = match found.get(&p) {
                        Some(s) => s.clone(),
                        None => BTreeSet::new(),
                    };
                    set.insert(port);
                    found.insert(p, set);
                    assert(ports_view(found) =~= before.insert(
                        p,
                        if before.contains_key(p) {
                            before[p]
                        } else {
                            Set::empty()
                        }.insert(port),
                    ));
                },
                _ => {},
            }
        }
        i += 1;
    }
    assert(lv.subrange(0, ls@.len() as int) =~= lv);
    found
}

/// The process table read so far: each line's first column is a pid, its second the group it is in;
/// a line that does not read as two numbers is passed over, and a later line about a pid wins.
pub open spec fn groups_fold(lines: Seq<Seq<char>>) -> Map<u32, u32>
    decreases lines.len(),
{
    if lines.len() == 0 {
        Map::empty()
    } else {
        let before = groups_fold(lines.drop_last());
        let columns = words_of(lines.last());
        if columns.len() >= 2 {
            match (
                parse_unsigned_spec(columns[0], 0xffff_ffff),
                parse_unsigned_spec(columns[1], 0xffff_ffff),
            ) {
                (Some(pid), Some(group)) => before.insert(pid as u32, group as u32),
                _ => before,
            }
        } else {
            before
        }
    }
}

/// `ps -ax -o pid=,pgid=` read as pid and group.
pub fn parse_groups(text: &str) -> (r: BTreeMap<u32, u32>)
    ensures
        r@ == groups_fold(lines_of(text@)),
{
    let ls = lines(text);
    let ghost lv = ls@.map_values(|l: Vec<char>| l@);
    let mut groups: BTreeMap<u32, u32> = BTreeMap::new();
    let mut i: usize = 0;
    while i < ls.len()
        invariant
            i <= ls@.len(),
            lv == ls@.map_values(|l: Vec<char>| l@),
            lv == lines_of(text@),
            groups@ == groups_fold(lv.subrange(0, i as int)),
        decreases ls.len() - i,
    {
        assert(lv.subrange(0, i as int + 1).drop_last() =~= lv.subrange(0, i as int));
        assert(lv.subrange(0, i as int + 1).last() == ls@[i as int]@);
        let line = crate::text::string_of(ls[i].as_slice());
        let columns = split_whitespace(line.as_str());
        if columns.len() >= 2 {
            let first = crate::text::chars_of(columns[0].as_str());
            let second = crate::text::chars_of(columns[1].as_str());
            assert(first@.subrange(0, first@.len() as int) =~= first@);
            assert(second@.subrange(0, second@.len() as int) =~= second@);
            let pid = parse_unsigned(&first, 0, first.len(), 0xffff_ffff);
            let group = parse_unsigned(&second, 0, second.len(), 0xffff_ffff);
            match (pid, group) {
                (Some(p), Some(g)) => {
                    groups.insert(p as u32, g as u32);
                },
                _ => {},
            }
        }
        i += 1;
    }
    assert(lv.subrange(0, ls@.len() as int) =~= lv);
    groups
}

/// The groups holding listeners: a group is there when some pid in it listens, and it holds every
/// port any such pid listens on. A pid the process table does not know is dropped: it exited
/// between the two reads, and guessing its group would be inventing one.
pub open spec fn folded(listeners: Map<u32, Set<u16>>, groups: Map<u32, u32>) -> Map<u32, Set<u16>> {
    Map::new(
        |g: u32| exists|p: u32| #[trigger] listeners.contains_key(p) && groups.contains_key(p) && groups[p] == g,
        |g: u32|
            Set::new(
                |port: u16|
                    exists|p: u32| #[trigger]
                        listeners.contains_key(p) && groups.contains_key(p) && groups[p] == g
                            && listeners[p].contains(port),
            ),
    )
}

pub fn fold(listeners: &BTreeMap<u32, BTreeSet<u16>>, groups: &BTreeMap<u32, u32>) -> (r: BTreeMap<u32, BTreeSet<u16>>)
    ensures
        ports_view(r) == folded(ports_view(*listeners), groups@),
{
    let ghost lm = ports_view(*listeners);
    let ghost gm = groups@;
    let mut out: BTreeMap<u32, BTreeSet<u16>> = BTreeMap::new();
    let ghost whole = vstd::std_specs::btree::spec_btree_map_iter(listeners).remaining();
    for entry in it: listeners.iter()
        invariant
            it.seq() == whole,
            lm == ports_view(*listeners),
            gm == groups@,
            forall|g: u32| #[trigger] out@.contains_key(g) <==> exists|j: int|
                0 <= j < it.index() && gm.contains_key(*it.seq()[j].0) && gm[*it.seq()[j].0] == g,
            forall|g: u32, port: u16| out@.contains_key(g) ==> (#[trigger] out@[g]@.contains(port) <==> exists|j: int|
                0 <= j < it.index() && gm.contains_key(*it.seq()[j].0) && gm[*it.seq()[j].0] == g
                    && lm[*it.seq()[j].0].contains(port)),
    {
        let ghost k = it.index();
        let ghost sq = it.seq();
        assert(entry == sq[k]);
        let (pid, ports) = entry;
        assert(listeners@.contains_key(*sq[k].0));
        assert(lm[*pid] == ports@);
        match groups.get(pid) {
            None => {
                assert forall|g: u32| #[trigger] out@.contains_key(g) <==> exists|j: int|
                    0 <= j < k + 1 && gm.contains_key(*sq[j].0) && gm[*sq[j].0] == g by {
                    if exists|j: int| 0 <= j < k + 1 && gm.contains_key(*sq[j].0) && gm[*sq[j].0] == g {
                        let j = choose|j: int| 0 <= j < k + 1 && gm.contains_key(*sq[j].0) && gm[*sq[j].0] == g;
                        assert(j != k);
                    }
                }
                assert forall|g: u32, port: u16| out@.contains_key(g) implies (#[trigger] out@[g]@.contains(port) <==> exists|j: int|
                    0 <= j < k + 1 && gm.contains_key(*sq[j].0) && gm[*sq[j].0] == g
                        && lm[*sq[j].0].contains(port)) by {
                    if exists|j: int| 0 <= j < k + 1 && gm.contains_key(*sq[j].0) && gm[*sq[j].0] == g
                        && lm[*sq[j].0].contains(port) {
                        let j = choose|j: int| 0 <= j < k + 1 && gm.contains_key(*sq[j].0) && gm[*sq[j].0] == g
                            && lm[*sq[j].0].contains(port);
                        assert(j != k);
                    }
                }
            },
            Some(g) => {
                let ghost gv = *g;
                let had = out.get(g).is_some();
                let mut set = match out.get(g) {
                    Some(s) => s.clone(),
                    None => BTreeSet::new(),
                };
                let ghost start = set@;
                let ghost each = vstd::std_specs::btree::spec_btree_keys_iter(ports).remaining();
                assert(start == if out@.contains_key(gv) { out@[gv]@ } else { Set::<u16>::empty() });
                for port in pi: ports.iter()
                    invariant
                        pi.seq() == each,
                        forall|q: u16| #[trigger] set@.contains(q) <==> (start.contains(q) || exists|j: int| 0 <= j < pi.index() && *each[j] == q),
                {
                    set.insert(*port);
                }
                assert(each.unref().to_set() == ports@);
                assert forall|q: u16| #[trigger] set@.contains(q) <==> (start.contains(q) || ports@.contains(q)) by {
                    if ports@.contains(q) {
                        assert(each.unref().to_set().contains(q));
                        let j = choose|j: int| 0 <= j < each.unref().len() && each.unref()[j] == q;
                        assert(*each[j] == q);
                    }
                    if exists|j: int| 0 <= j < each.len() && *each[j] == q {
                        let j = choose|j: int| 0 <= j < each.len() && *each[j] == q;
                        assert(each.unref()[j] == q);
                        assert(each.unref().to_set().contains(q));
                    }
                }
                let ghost before = out@;
                out.insert(*g, set);
                assert forall|h: u32| #[trigger] out@.contains_key(h) <==> exists|j: int|
                    0 <= j < k + 1 && gm.contains_key(*sq[j].0) && gm[*sq[j].0] == h by {
                    if h == gv {
                        assert(gm.contains_key(*sq[k].0) && gm[*sq[k].0] == h);
                    } else if exists|j: int| 0 <= j < k + 1 && gm.contains_key(*sq[j].0) && gm[*sq[j].0] == h {
                        let j = choose|j: int| 0 <= j < k + 1 && gm.contains_key(*sq[j].0) && gm[*sq[j].0] == h;
                        assert(j != k);
                        assert(before.contains_key(h));
                    }
                }
                assert forall|h: u32, q: u16| out@.contains_key(h) implies (#[trigger] out@[h]@.contains(q) <==> exists|j: int|
                    0 <= j < k + 1 && gm.contains_key(*sq[j].0) && gm[*sq[j].0] == h
                        && lm[*sq[j].0].contains(q)) by {
                    if h == gv {
                        if out@[h]@.contains(q) {
                            if start.contains(q) {
                                assert(before.contains_key(h) && before[h]@.contains(q));
                            } else {
                                assert(lm[*sq[k].0].contains(q));
                            }
                        }
                        if exists|j: int| 0 <= j < k + 1 && gm.contains_key(*sq[j].0) && gm[*sq[j].0] == h
                            && lm[*sq[j].0].contains(q) {
                            let j = choose|j: int| 0 <= j < k + 1 && gm.contains_key(*sq[j].0) && gm[*sq[j].0] == h
                                && lm[*sq[j].0].contains(q);
                            if j < k {
                                assert(before.contains_key(h));
                                assert(before[h]@.contains(q));
                            }
                        }
                    } else {
                        assert(before.contains_key(h));
                        if exists|j: int| 0 <= j < k + 1 && gm.contains_key(*sq[j].0) && gm[*sq[j].0] == h
                            && lm[*sq[j].0].contains(q) {
                            let j = choose|j: int| 0 <= j < k + 1 && gm.contains_key(*sq[j].0) && gm[*sq[j].0] == h
                                && lm[*sq[j].0].contains(q);
                            assert(j != k);
                        }
                    }
                }
            },
        }
    }
    proof {
        let sq = whole;
        let want = folded(lm, gm);
        assert forall|g: u32| ports_view(out).contains_key(g) <==> want.contains_key(g) by {
            if ports_view(out).contains_key(g) {
                let j = choose|j: int| 0 <= j < sq.len() && gm.contains_key(*sq[j].0) && gm[*sq[j].0] == g;
                assert(listeners@.contains_key(*sq[j].0));
                assert(lm.contains_key(*sq[j].0));
            }
            if want.contains_key(g) {
                let p = choose|p: u32| #[trigger] lm.contains_key(p) && gm.contains_key(p) && gm[p] == g;
                assert(listeners@.contains_key(p));
                assert(sq.contains((&p, &listeners@[p])));
                let j = choose|j: int| 0 <= j < sq.len() && sq[j] == (&p, &listeners@[p]);
                assert(*sq[j].0 == p);
            }
        }
        assert forall|g: u32| #[trigger] ports_view(out).contains_key(g) implies ports_view(out)[g] =~= want[g] by {
            assert forall|q: u16| ports_view(out)[g].contains(q) <==> want[g].contains(q) by {
                if ports_view(out)[g].contains(q) {
                    assert(out@[g]@.contains(q));
                    let j = choose|j: int| 0 <= j < sq.len() && gm.contains_key(*sq[j].0) && gm[*sq[j].0] == g
                        && lm[*sq[j].0].contains(q);
                    assert(listeners@.contains_key(*sq[j].0));
                    assert(lm.contains_key(*sq[j].0));
                }
                if want[g].contains(q) {
                    let p = choose|p: u32| #[trigger] lm.contains_key(p) && gm.contains_key(p) && gm[p] == g
                        && lm[p].contains(q);
                    assert(listeners@.contains_key(p));
                    assert(sq.contains((&p, &listeners@[p])));
                    let j = choose|j: int| 0 <= j < sq.len() && sq[j] == (&p, &listeners@[p]);
                    assert(*sq[j].0 == p);
                    assert(out@[g]@.contains(q));
                }
            }
        }
        assert(ports_view(out) =~= want);
    }
    out
}

/// The ports each process group listens on, from what `lsof -nP -iTCP -sTCP:LISTEN -F pn` printed
/// and what `ps -ax -o pid=,pgid=` printed.
pub fn listening(sockets: &str, table: &str) -> (r: BTreeMap<u32, BTreeSet<u16>>)
    ensures
        ports_view(r) == folded(lsof_fold(lines_of(sockets@)).0, groups_fold(lines_of(table@))),
{
    let listeners = parse_lsof(sockets);
    let groups = parse_groups(table);
    fold(&listeners, &groups)
}

} // verus!
