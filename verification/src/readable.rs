//! Program output turned into lines a plain reader can be shown.
//!
//! Cursor motion is spent here rather than passed on; colour is kept as the style of the characters
//! it applied to. A carriage return returns the cursor to the start of the line, so a progress bar
//! rewritten in place reads as its final frame. Nothing assumes a chunk ends anywhere in particular:
//! an escape sequence, a UTF-8 character and a line can each be cut in half by a chunk boundary.

use vstd::prelude::*;

use crate::text::{char_from_u32, control, is_control, is_scalar, is_whitespace, push_char, whitespace};

verus! {

/// How long a line may get before it is handed over unfinished.
pub const LONGEST_LINE: usize = 8192;

/// A colour as the sequence named it.
#[derive(Debug, Clone, Copy, PartialEq, Eq, Structural)]
pub enum Colour {
    /// 0..=7 as written, 8..=15 for the bright half.
    Ansi(u8),
    Indexed(u8),
    Rgb(u8, u8, u8),
}

/// How a run of characters was painted.
#[derive(Debug, Clone, Copy, PartialEq, Eq, Structural)]
pub struct Sgr {
    pub fg: Option<Colour>,
    pub bg: Option<Colour>,
    pub bold: bool,
    pub dim: bool,
    pub italic: bool,
    pub underline: bool,
    pub reverse: bool,
}

/// No paint at all.
pub open spec fn plain_sgr() -> Sgr {
    Sgr { fg: None, bg: None, bold: false, dim: false, italic: false, underline: false, reverse: false }
}

impl Sgr {
    pub fn plain() -> (r: Sgr)
        ensures
            r == plain_sgr(),
    {
        Sgr { fg: None, bg: None, bold: false, dim: false, italic: false, underline: false, reverse: false }
    }
}

// ---------------------------------------------------------------------------------------------
// Reading the parameters of a `CSI ... m`.

/// The pieces of a parameter list between its semicolons; an empty list is one empty piece.
pub open spec fn split_params(s: Seq<char>) -> Seq<Seq<char>>
    decreases s.len(),
{
    if s.len() == 0 {
        seq![Seq::empty()]
    } else {
        let pieces = split_params(s.drop_last());
        if s.last() == ';' {
            pieces.push(Seq::empty())
        } else {
            pieces.update(pieces.len() - 1, pieces.last().push(s.last()))
        }
    }
}

/// `s` without the white space at its front.
pub open spec fn trim_start(s: Seq<char>) -> Seq<char>
    decreases s.len(),
{
    if s.len() > 0 && is_whitespace(s[0]) {
        trim_start(s.drop_first())
    } else {
        s
    }
}

/// `s` without the white space at its end.
pub open spec fn trim_end(s: Seq<char>) -> Seq<char>
    decreases s.len(),
{
    if s.len() > 0 && is_whitespace(s.last()) {
        trim_end(s.drop_last())
    } else {
        s
    }
}

pub open spec fn is_digit(c: char) -> bool {
    '0' <= c && c <= '9'
}

/// The number an all-digit string spells.
pub open spec fn digits_value(s: Seq<char>) -> nat
    decreases s.len(),
{
    if s.len() == 0 {
        0
    } else {
        digits_value(s.drop_last()) * 10 + ((s.last() as u32) - 48) as nat
    }
}

/// What parsing `s` as a `u16` gives: an optional `+`, then one or more ASCII digits whose value
/// fits.
pub open spec fn parse_u16(s: Seq<char>) -> Option<u16> {
    let digits = unsigned_part(s);
    if digits.len() > 0 && all_digits(digits) && digits_value(digits) <= 65535 {
        Some(digits_value(digits) as u16)
    } else {
        None
    }
}

/// What is left of a number once an optional leading `+` is taken off.
pub open spec fn unsigned_part(s: Seq<char>) -> Seq<char> {
    if s.len() > 0 && s[0] == '+' {
        s.drop_first()
    } else {
        s
    }
}

pub open spec fn all_digits(s: Seq<char>) -> bool {
    forall|i: int| 0 <= i < s.len() ==> is_digit(#[trigger] s[i])
}

/// One parameter: nought when it is empty, its number when it reads as one, and nothing when it
/// is not understood.
pub open spec fn code_of(piece: Seq<char>) -> Option<u16> {
    let trimmed = trim_end(trim_start(piece));
    if trimmed.len() == 0 {
        Some(0)
    } else {
        parse_u16(trimmed)
    }
}

/// The numbers of some pieces, in order, each piece not understood skipped.
pub open spec fn codes_read(pieces: Seq<Seq<char>>) -> Seq<u16>
    decreases pieces.len(),
{
    if pieces.len() == 0 {
        Seq::empty()
    } else {
        let before = codes_read(pieces.drop_last());
        match code_of(pieces.last()) {
            Some(v) => before.push(v),
            None => before,
        }
    }
}

/// The numbers of a parameter list.
pub open spec fn codes_of(params: Seq<char>) -> Seq<u16> {
    codes_read(split_params(params))
}

/// How the tail of a 38 or 48 read.
pub enum Extended {
    Colour(Colour),
    /// A selector that is neither 5 nor 2.
    Unknown,
    /// The parameters ran out mid-colour.
    RanOut,
}

/// The `5;n` and `2;r;g;b` tails of a 38 or 48, and how many parameters they took.
pub open spec fn extended(rest: Seq<u16>) -> (Extended, nat) {
    if rest.len() == 0 {
        (Extended::RanOut, 0)
    } else if rest[0] == 5 {
        if rest.len() >= 2 {
            (Extended::Colour(Colour::Indexed((rest[1] % 256) as u8)), 2)
        } else {
            (Extended::RanOut, rest.len())
        }
    } else if rest[0] == 2 {
        if rest.len() >= 4 {
            (
                Extended::Colour(
                    Colour::Rgb((rest[1] % 256) as u8, (rest[2] % 256) as u8, (rest[3] % 256) as u8),
                ),
                4,
            )
        } else {
            (Extended::RanOut, rest.len())
        }
    } else {
        (Extended::Unknown, 1)
    }
}

/// A colour slot after an extended tail: a colour it named, nothing for a selector not understood,
/// and the slot as it was when the tail ran out, as if the sequence had never arrived.
pub open spec fn slot_after(slot: Option<Colour>, tail: Extended) -> Option<Colour> {
    match tail {
        Extended::Colour(c) => Some(c),
        Extended::Unknown => None,
        Extended::RanOut => slot,
    }
}

/// One code other than 38 and 48 applied over the paint in force; a code not understood changes
/// nothing.
pub open spec fn apply_one(s: Sgr, code: u16) -> Sgr {
    if code == 0 {
        plain_sgr()
    } else if code == 1 {
        Sgr { bold: true, ..s }
    } else if code == 2 {
        Sgr { dim: true, ..s }
    } else if code == 3 {
        Sgr { italic: true, ..s }
    } else if code == 4 {
        Sgr { underline: true, ..s }
    } else if code == 7 {
        Sgr { reverse: true, ..s }
    } else if code == 22 {
        Sgr { bold: false, dim: false, ..s }
    } else if code == 23 {
        Sgr { italic: false, ..s }
    } else if code == 24 {
        Sgr { underline: false, ..s }
    } else if code == 27 {
        Sgr { reverse: false, ..s }
    } else if 30 <= code && code <= 37 {
        Sgr { fg: Some(Colour::Ansi((code - 30) as u8)), ..s }
    } else if code == 39 {
        Sgr { fg: None, ..s }
    } else if 40 <= code && code <= 47 {
        Sgr { bg: Some(Colour::Ansi((code - 40) as u8)), ..s }
    } else if code == 49 {
        Sgr { bg: None, ..s }
    } else if 90 <= code && code <= 97 {
        Sgr { fg: Some(Colour::Ansi((code - 90 + 8) as u8)), ..s }
    } else if 100 <= code && code <= 107 {
        Sgr { bg: Some(Colour::Ansi((code - 100 + 8) as u8)), ..s }
    } else {
        s
    }
}

/// A whole list of codes applied in order, a 38 or 48 taking its tail with it.
pub open spec fn apply_codes(s: Sgr, codes: Seq<u16>) -> Sgr
    decreases codes.len(),
{
    if codes.len() == 0 {
        s
    } else {
        let code = codes[0];
        let rest = codes.drop_first();
        if code == 38 {
            let (tail, used) = extended(rest);
            apply_codes(Sgr { fg: slot_after(s.fg, tail), ..s }, rest.skip(used as int))
        } else if code == 48 {
            let (tail, used) = extended(rest);
            apply_codes(Sgr { bg: slot_after(s.bg, tail), ..s }, rest.skip(used as int))
        } else {
            apply_codes(apply_one(s, code), rest)
        }
    }
}

/// The paint after one `CSI <params> m`.
pub open spec fn apply_params(s: Sgr, params: Seq<char>) -> Sgr {
    apply_codes(s, codes_of(params))
}

/// A parameter list of two digits is the one code they spell.
proof fn lemma_codes_two(a: char, b: char)
    requires
        is_digit(a),
        is_digit(b),
    ensures
        codes_of(seq![a, b]) == seq![(((a as u32) - 48) * 10 + ((b as u32) - 48)) as u16],
{
    let p = seq![a, b];
    assert(p.drop_last() =~= seq![a]);
    assert(seq![a].drop_last() =~= Seq::<char>::empty());
    assert(split_params(Seq::<char>::empty()) == seq![Seq::<char>::empty()]);
    assert(split_params(seq![a]) =~= seq![seq![a]]) by {
        assert(Seq::<char>::empty().push(a) =~= seq![a]);
    }
    assert(split_params(p) =~= seq![p]) by {
        assert(seq![a].push(b) =~= p);
    }
    assert(!is_whitespace(a) && !is_whitespace(b));
    assert(trim_start(p) == p);
    assert(trim_end(p) == p);
    assert(unsigned_part(p) == p);
    assert(all_digits(p));
    assert(digits_value(seq![a]) == ((a as u32) - 48) as nat) by {
        assert(digits_value(Seq::<char>::empty()) == 0);
    }
    assert(digits_value(p) == digits_value(seq![a]) * 10 + ((b as u32) - 48) as nat);
    assert(code_of(p) == Some((((a as u32) - 48) * 10 + ((b as u32) - 48)) as u16));
    let ps = seq![p];
    assert(ps.drop_last() =~= Seq::<Seq<char>>::empty());
    assert(ps.last() == p);
    assert(codes_read(Seq::<Seq<char>>::empty()) == Seq::<u16>::empty());
    assert(codes_read(ps) =~= Seq::<u16>::empty().push((((a as u32) - 48) * 10 + ((b as u32) - 48)) as u16));
}

/// A parameter list of one digit is the one code it spells.
proof fn lemma_codes_one(a: char)
    requires
        is_digit(a),
    ensures
        codes_of(seq![a]) == seq![((a as u32) - 48) as u16],
{
    let p = seq![a];
    assert(p.drop_last() =~= Seq::<char>::empty());
    assert(split_params(Seq::<char>::empty()) == seq![Seq::<char>::empty()]);
    assert(split_params(p) =~= seq![p]) by {
        assert(Seq::<char>::empty().push(a) =~= p);
    }
    assert(!is_whitespace(a));
    assert(trim_start(p) == p);
    assert(trim_end(p) == p);
    assert(unsigned_part(p) == p);
    assert(all_digits(p));
    assert(digits_value(p) == ((a as u32) - 48) as nat) by {
        assert(digits_value(Seq::<char>::empty()) == 0);
    }
    let ps = seq![p];
    assert(ps.drop_last() =~= Seq::<Seq<char>>::empty());
    assert(ps.last() == p);
    assert(codes_read(Seq::<Seq<char>>::empty()) == Seq::<u16>::empty());
    assert(codes_read(ps) =~= Seq::<u16>::empty().push(((a as u32) - 48) as u16));
}

/// One code alone is applied on its own.
proof fn lemma_apply_single(s: Sgr, c: u16)
    requires
        c != 38 && c != 48,
    ensures
        apply_codes(s, seq![c]) == apply_one(s, c),
{
    assert(seq![c].drop_first() =~= Seq::<u16>::empty());
    assert(seq![c][0] == c);
    assert(apply_codes(s, seq![c]) == apply_codes(apply_one(s, c), Seq::<u16>::empty()));
    assert(apply_codes(apply_one(s, c), Seq::<u16>::empty()) == apply_one(s, c));
}

/// What each code does to the paint in force, whatever that paint is: `0` and an empty list reset
/// it, the attribute codes set or clear their own attribute, and the colour codes set their own
/// slot; nothing else changes.
pub proof fn law_each_code_touches_only_its_own(s: Sgr)
    ensures
        apply_params(s, ""@) == plain_sgr(),
        apply_params(s, "0"@) == plain_sgr(),
        apply_params(s, "1"@) == (Sgr { bold: true, ..s }),
        apply_params(s, "2"@) == (Sgr { dim: true, ..s }),
        apply_params(s, "3"@) == (Sgr { italic: true, ..s }),
        apply_params(s, "4"@) == (Sgr { underline: true, ..s }),
        apply_params(s, "7"@) == (Sgr { reverse: true, ..s }),
        apply_params(s, "22"@) == (Sgr { bold: false, dim: false, ..s }),
        apply_params(s, "23"@) == (Sgr { italic: false, ..s }),
        apply_params(s, "24"@) == (Sgr { underline: false, ..s }),
        apply_params(s, "27"@) == (Sgr { reverse: false, ..s }),
        apply_params(s, "31"@) == (Sgr { fg: Some(Colour::Ansi(1)), ..s }),
        apply_params(s, "41"@) == (Sgr { bg: Some(Colour::Ansi(1)), ..s }),
        apply_params(s, "91"@) == (Sgr { fg: Some(Colour::Ansi(9)), ..s }),
{
    reveal_strlit("");
    assert(""@ =~= Seq::<char>::empty());
    assert(split_params(Seq::<char>::empty()) == seq![Seq::<char>::empty()]);
    assert(trim_start(Seq::<char>::empty()) == Seq::<char>::empty());
    assert(trim_end(Seq::<char>::empty()) == Seq::<char>::empty());
    let ps = seq![Seq::<char>::empty()];
    assert(ps.drop_last() =~= Seq::<Seq<char>>::empty());
    assert(codes_read(Seq::<Seq<char>>::empty()) == Seq::<u16>::empty());
    assert(codes_read(ps) =~= seq![0u16]);
    lemma_apply_single(s, 0);
    reveal_strlit("0");
    reveal_strlit("1");
    reveal_strlit("2");
    reveal_strlit("3");
    reveal_strlit("4");
    reveal_strlit("7");
    assert("0"@ =~= seq!['0'] && "1"@ =~= seq!['1'] && "2"@ =~= seq!['2'] && "3"@ =~= seq!['3']);
    assert("4"@ =~= seq!['4'] && "7"@ =~= seq!['7']);
    lemma_codes_one('0');
    lemma_codes_one('1');
    lemma_codes_one('2');
    lemma_codes_one('3');
    lemma_codes_one('4');
    lemma_codes_one('7');
    lemma_apply_single(s, 1);
    lemma_apply_single(s, 2);
    lemma_apply_single(s, 3);
    lemma_apply_single(s, 4);
    lemma_apply_single(s, 7);
    reveal_strlit("22");
    reveal_strlit("23");
    reveal_strlit("24");
    reveal_strlit("27");
    reveal_strlit("31");
    reveal_strlit("41");
    reveal_strlit("91");
    assert("22"@ =~= seq!['2', '2'] && "23"@ =~= seq!['2', '3'] && "24"@ =~= seq!['2', '4']);
    assert("27"@ =~= seq!['2', '7'] && "31"@ =~= seq!['3', '1'] && "41"@ =~= seq!['4', '1']);
    assert("91"@ =~= seq!['9', '1']);
    lemma_codes_two('2', '2');
    lemma_codes_two('2', '3');
    lemma_codes_two('2', '4');
    lemma_codes_two('2', '7');
    lemma_codes_two('3', '1');
    lemma_codes_two('4', '1');
    lemma_codes_two('9', '1');
    lemma_apply_single(s, 22);
    lemma_apply_single(s, 23);
    lemma_apply_single(s, 24);
    lemma_apply_single(s, 27);
    lemma_apply_single(s, 31);
    lemma_apply_single(s, 41);
    lemma_apply_single(s, 91);
}

proof fn lemma_split_nonempty(s: Seq<char>)
    ensures
        split_params(s).len() > 0,
    decreases s.len(),
{
    if s.len() > 0 {
        lemma_split_nonempty(s.drop_last());
    }
}

/// Splitting at a semicolon is splitting each side.
proof fn lemma_split_join(p: Seq<char>, q: Seq<char>)
    ensures
        split_params(p + seq![';'] + q) == split_params(p) + split_params(q),
    decreases q.len(),
{
    let pq = p + seq![';'] + q;
    if q.len() == 0 {
        assert(pq =~= p.push(';'));
        assert(pq.drop_last() =~= p);
        assert(split_params(q) == seq![Seq::<char>::empty()]);
        assert(split_params(p).push(Seq::empty()) =~= split_params(p) + seq![Seq::<char>::empty()]);
    } else {
        lemma_split_join(p, q.drop_last());
        lemma_split_nonempty(q.drop_last());
        lemma_split_nonempty(p);
        assert(pq.drop_last() =~= p + seq![';'] + q.drop_last());
        assert(pq.last() == q.last());
        let a = split_params(p);
        let b = split_params(q.drop_last());
        if q.last() == ';' {
            assert((a + b).push(Seq::empty()) =~= a + b.push(Seq::empty()));
        } else {
            let ab = a + b;
            assert(ab.last() == b.last());
            assert(ab.update(ab.len() - 1, ab.last().push(q.last())) =~= a + b.update(
                b.len() - 1,
                b.last().push(q.last()),
            ));
        }
    }
}

/// The codes of pieces side by side are the codes of each, side by side.
proof fn lemma_codes_read_join(a: Seq<Seq<char>>, b: Seq<Seq<char>>)
    ensures
        codes_read(a + b) == codes_read(a) + codes_read(b),
    decreases b.len(),
{
    if b.len() == 0 {
        assert(a + b =~= a);
        assert(codes_read(a) + Seq::<u16>::empty() =~= codes_read(a));
    } else {
        lemma_codes_read_join(a, b.drop_last());
        assert((a + b).drop_last() =~= a + b.drop_last());
        assert((a + b).last() == b.last());
        match code_of(b.last()) {
            Some(v) => {
                assert((codes_read(a) + codes_read(b.drop_last())).push(v) =~= codes_read(a) + codes_read(
                    b.drop_last(),
                ).push(v));
            },
            None => {},
        }
    }
}

/// Codes that take no tail with them apply one after another.
proof fn lemma_apply_codes_join(s: Sgr, c1: Seq<u16>, c2: Seq<u16>)
    requires
        forall|i: int| 0 <= i < c1.len() ==> #[trigger] c1[i] != 38 && c1[i] != 48,
    ensures
        apply_codes(s, c1 + c2) == apply_codes(apply_codes(s, c1), c2),
    decreases c1.len(),
{
    if c1.len() == 0 {
        assert(c1 + c2 =~= c2);
    } else {
        let c = c1[0];
        assert(c != 38 && c != 48);
        assert((c1 + c2)[0] == c);
        assert((c1 + c2).drop_first() =~= c1.drop_first() + c2);
        assert forall|i: int| 0 <= i < c1.drop_first().len() implies #[trigger] c1.drop_first()[i] != 38
            && c1.drop_first()[i] != 48 by {
            assert(c1.drop_first()[i] == c1[i + 1]);
        }
        lemma_apply_codes_join(apply_one(s, c), c1.drop_first(), c2);
    }
}

/// Parameters joined by a semicolon apply one list after the other, when the first holds no 38 or
/// 48 (whose colour tail may run on into the second).
pub proof fn law_parameters_apply_in_order(s: Sgr, p: Seq<char>, q: Seq<char>)
    requires
        forall|i: int| 0 <= i < codes_of(p).len() ==> #[trigger] codes_of(p)[i] != 38 && codes_of(p)[i] != 48,
    ensures
        apply_params(s, p + seq![';'] + q) == apply_params(apply_params(s, p), q),
{
    lemma_split_join(p, q);
    lemma_codes_read_join(split_params(p), split_params(q));
    lemma_apply_codes_join(s, codes_of(p), codes_of(q));
}

/// The two codes that put a colour back to the terminal's own: `39` clears the foreground and `49`
/// the background, for any paint in force, and nothing else about the paint changes; and `32`
/// paints the foreground the second colour, again leaving the rest.
pub proof fn law_a_default_colour_code_clears_only_its_slot(s: Sgr)
    ensures
        apply_params(s, "39"@) == (Sgr { fg: None, ..s }),
        apply_params(s, "49"@) == (Sgr { bg: None, ..s }),
        apply_params(s, "32"@) == (Sgr { fg: Some(Colour::Ansi(2)), ..s }),
{
    reveal_strlit("39");
    reveal_strlit("49");
    reveal_strlit("32");
    assert("39"@ =~= seq!['3', '9']);
    assert("49"@ =~= seq!['4', '9']);
    assert("32"@ =~= seq!['3', '2']);
    lemma_codes_two('3', '9');
    lemma_codes_two('4', '9');
    lemma_codes_two('3', '2');
    assert(codes_of("39"@) == seq![39u16]);
    assert(codes_of("49"@) == seq![49u16]);
    assert(codes_of("32"@) == seq![32u16]);
    assert(seq![39u16].drop_first() =~= Seq::<u16>::empty());
    assert(seq![49u16].drop_first() =~= Seq::<u16>::empty());
    assert(seq![32u16].drop_first() =~= Seq::<u16>::empty());
    assert(apply_codes(s, seq![39u16]) == apply_codes(apply_one(s, 39), Seq::<u16>::empty()));
    assert(apply_codes(s, seq![49u16]) == apply_codes(apply_one(s, 49), Seq::<u16>::empty()));
    assert(apply_codes(s, seq![32u16]) == apply_codes(apply_one(s, 32), Seq::<u16>::empty()));
}

/// The pieces between semicolons.
fn split_exec(params: &Vec<char>) -> (pieces: Vec<Vec<char>>)
    ensures
        pieces@.len() == split_params(params@).len(),
        forall|i: int| 0 <= i < pieces@.len() ==> #[trigger] pieces@[i]@ == split_params(params@)[i],
{
    let mut pieces: Vec<Vec<char>> = Vec::new();
    pieces.push(Vec::new());
    let mut i: usize = 0;
    while i < params.len()
        invariant
            i <= params@.len(),
            pieces@.len() == split_params(params@.subrange(0, i as int)).len(),
            pieces@.len() > 0,
            forall|j: int|
                0 <= j < pieces@.len() ==> #[trigger] pieces@[j]@ == split_params(
                    params@.subrange(0, i as int),
                )[j],
        decreases params.len() - i,
    {
        let c = params[i];
        let ghost before = params@.subrange(0, i as int);
        assert(params@.subrange(0, i as int + 1).drop_last() =~= before);
        if c == ';' {
            pieces.push(Vec::new());
        } else {
            let mut last = pieces.pop().unwrap();
            last.push(c);
            pieces.push(last);
        }
        i += 1;
        proof {
            let now = params@.subrange(0, i as int);
            assert(now.last() == c);
            assert forall|j: int| 0 <= j < pieces@.len() implies #[trigger] pieces@[j]@
                == split_params(now)[j] by {}
        }
    }
    assert(params@.subrange(0, params@.len() as int) =~= params@);
    pieces
}

/// Where a piece starts and ends once the white space around it is trimmed.
pub(crate) fn trim_exec(piece: &Vec<char>) -> (r: (usize, usize))
    ensures
        r.0 <= r.1 <= piece@.len(),
        piece@.subrange(r.0 as int, r.1 as int) == trim_end(trim_start(piece@)),
{
    let mut start: usize = 0;
    assert(piece@.subrange(0, piece@.len() as int) =~= piece@);
    while start < piece.len() && whitespace(piece[start])
        invariant
            start <= piece@.len(),
            trim_start(piece@) == trim_start(piece@.subrange(start as int, piece@.len() as int)),
        decreases piece.len() - start,
    {
        proof {
            let s = piece@.subrange(start as int, piece@.len() as int);
            assert(s.drop_first() =~= piece@.subrange(start as int + 1, piece@.len() as int));
        }
        start += 1;
    }
    let ghost front = piece@.subrange(start as int, piece@.len() as int);
    assert(trim_start(piece@) == front) by {
        assert(!(front.len() > 0 && is_whitespace(front[0])));
    }
    let mut end: usize = piece.len();
    while end > start && whitespace(piece[end - 1])
        invariant
            start <= end <= piece@.len(),
            front == piece@.subrange(start as int, piece@.len() as int),
            trim_end(front) == trim_end(piece@.subrange(start as int, end as int)),
        decreases end,
    {
        proof {
            let s = piece@.subrange(start as int, end as int);
            assert(s.drop_last() =~= piece@.subrange(start as int, end as int - 1));
        }
        end -= 1;
    }
    let ghost trimmed = piece@.subrange(start as int, end as int);
    assert(trim_end(front) == trimmed) by {
        assert(!(trimmed.len() > 0 && is_whitespace(trimmed.last())));
    }
    (start, end)
}

/// What `piece[start..end]` parses to as a `u16`.
fn parse_exec(piece: &Vec<char>, start: usize, end: usize) -> (r: Option<u16>)
    requires
        start <= end <= piece@.len(),
    ensures
        r == parse_u16(piece@.subrange(start as int, end as int)),
{
    let ghost trimmed = piece@.subrange(start as int, end as int);
    let mut i = start;
    if i < end && piece[i] == '+' {
        i += 1;
    }
    let ghost digits = piece@.subrange(i as int, end as int);
    assert(digits == unsigned_part(trimmed)) by {
        if trimmed.len() > 0 && trimmed[0] == '+' {
            assert(trimmed.drop_first() =~= digits);
        } else {
            assert(trimmed =~= digits);
        }
    }
    if i == end {
        return None;
    }
    let first = i;
    let mut value: u64 = 0;
    assert(piece@.subrange(first as int, first as int) =~= Seq::<char>::empty());
    while i < end
        invariant
            first <= i <= end <= piece@.len(),
            start <= first,
            digits == piece@.subrange(first as int, end as int),
            trimmed == piece@.subrange(start as int, end as int),
            digits == unsigned_part(trimmed),
            forall|j: int| first <= j < i ==> is_digit(#[trigger] piece@[j]),
            value == if digits_value(piece@.subrange(first as int, i as int)) < 65536 {
                digits_value(piece@.subrange(first as int, i as int))
            } else {
                65536
            },
        decreases end - i,
    {
        let c = piece[i];
        if !('0' <= c && c <= '9') {
            proof {
                assert(digits[(i - first) as int] == c);
                let k = (i - first) as int;
                assert(!is_digit(digits[k]));
                assert(!all_digits(digits));
            }
            return None;
        }
        let d = (c as u32 - 48) as u64;
        let ghost prefix = piece@.subrange(first as int, i as int);
        let ghost next = piece@.subrange(first as int, i as int + 1);
        assert(next.drop_last() =~= prefix);
        value = value * 10 + d;
        if value > 65536 {
            value = 65536;
        }
        i += 1;
    }
    proof {
        assert forall|j: int| 0 <= j < digits.len() implies is_digit(#[trigger] digits[j]) by {
            assert(digits[j] == piece@[first + j]);
        }
        assert(all_digits(digits));
    }
    if value > 65535 {
        None
    } else {
        Some(value as u16)
    }
}

/// The number a parameter piece reads as: nought when empty, nothing when not understood.
fn code_exec(piece: &Vec<char>) -> (code: Option<u16>)
    ensures
        code == code_of(piece@),
{
    let (start, end) = trim_exec(piece);
    if start == end {
        Some(0)
    } else {
        parse_exec(piece, start, end)
    }
}

/// The numbers of a parameter list.
fn codes_exec(params: &Vec<char>) -> (codes: Vec<u16>)
    ensures
        codes@ == codes_of(params@),
{
    let pieces = split_exec(params);
    let mut codes: Vec<u16> = Vec::new();
    let mut i: usize = 0;
    while i < pieces.len()
        invariant
            i <= pieces@.len(),
            pieces@.len() == split_params(params@).len(),
            forall|j: int| 0 <= j < pieces@.len() ==> #[trigger] pieces@[j]@ == split_params(params@)[j],
            codes@ == codes_read(split_params(params@).subrange(0, i as int)),
        decreases pieces.len() - i,
    {
        let ghost all = split_params(params@);
        assert(all.subrange(0, i as int + 1).drop_last() =~= all.subrange(0, i as int));
        assert(all.subrange(0, i as int + 1).last() == pieces@[i as int]@);
        match code_exec(&pieces[i]) {
            Some(code) => codes.push(code),
            None => {},
        }
        i += 1;
    }
    assert(split_params(params@).subrange(0, pieces@.len() as int) =~= split_params(params@));
    codes
}

/// The tail of a 38 or 48 starting at `at`.
fn extended_exec(codes: &Vec<u16>, at: usize) -> (r: (Option<Colour>, bool, usize))
    requires
        at <= codes@.len(),
    ensures
        ({
            let (tail, used) = extended(codes@.skip(at as int));
            &&& r.2 == used
            &&& (r.1 <==> tail is RanOut)
            &&& (tail matches Extended::Colour(c) ==> r.0 == Some(c))
            &&& (tail is Unknown ==> r.0 is None)
        }),
{
    let n = codes.len() - at;
    if n == 0 {
        return (None, true, 0);
    }
    let selector = codes[at];
    if selector == 5 {
        if n >= 2 {
            (Some(Colour::Indexed((codes[at + 1] % 256) as u8)), false, 2)
        } else {
            (None, true, n)
        }
    } else if selector == 2 {
        if n >= 4 {
            (
                Some(
                    Colour::Rgb(
                        (codes[at + 1] % 256) as u8,
                        (codes[at + 2] % 256) as u8,
                        (codes[at + 3] % 256) as u8,
                    ),
                ),
                false,
                4,
            )
        } else {
            (None, true, n)
        }
    } else {
        (None, false, 1)
    }
}

fn apply_one_exec(s: Sgr, code: u16) -> (r: Sgr)
    ensures
        r == apply_one(s, code),
{
    if code == 0 {
        Sgr::plain()
    } else if code == 1 {
        Sgr { bold: true, ..s }
    } else if code == 2 {
        Sgr { dim: true, ..s }
    } else if code == 3 {
        Sgr { italic: true, ..s }
    } else if code == 4 {
        Sgr { underline: true, ..s }
    } else if code == 7 {
        Sgr { reverse: true, ..s }
    } else if code == 22 {
        Sgr { bold: false, dim: false, ..s }
    } else if code == 23 {
        Sgr { italic: false, ..s }
    } else if code == 24 {
        Sgr { underline: false, ..s }
    } else if code == 27 {
        Sgr { reverse: false, ..s }
    } else if 30 <= code && code <= 37 {
        Sgr { fg: Some(Colour::Ansi((code - 30) as u8)), ..s }
    } else if code == 39 {
        Sgr { fg: None, ..s }
    } else if 40 <= code && code <= 47 {
        Sgr { bg: Some(Colour::Ansi((code - 40) as u8)), ..s }
    } else if code == 49 {
        Sgr { bg: None, ..s }
    } else if 90 <= code && code <= 97 {
        Sgr { fg: Some(Colour::Ansi((code - 90 + 8) as u8)), ..s }
    } else if 100 <= code && code <= 107 {
        Sgr { bg: Some(Colour::Ansi((code - 100 + 8) as u8)), ..s }
    } else {
        s
    }
}

impl Sgr {
    /// One parameter list of a `CSI ... m`, applied over what was already in force.
    fn apply(&mut self, params: &Vec<char>)
        ensures
            *final(self) == apply_params(*old(self), params@),
    {
        let codes = codes_exec(params);
        let ghost all = codes@;
        let mut i: usize = 0;
        assert(all.skip(0) =~= all);
        while i < codes.len()
            invariant
                i <= codes@.len(),
                codes@ == all,
                apply_params(*old(self), params@) == apply_codes(*self, all.skip(i as int)),
            decreases codes.len() - i,
        {
            let code = codes[i];
            let ghost rest = all.skip(i as int);
            assert(rest[0] == code);
            assert(rest.drop_first() =~= all.skip(i as int + 1));
            if code == 38 || code == 48 {
                let (colour, ran_out, used) = extended_exec(&codes, i + 1);
                if !ran_out {
                    if code == 38 {
                        self.fg = colour;
                    } else {
                        self.bg = colour;
                    }
                }
                assert(all.skip(i as int + 1).skip(used as int) =~= all.skip(i as int + 1 + used as int));
                i = i + 1 + used;
            } else {
                *self = apply_one_exec(*self, code);
                i += 1;
            }
        }
        assert(all.skip(i as int) =~= Seq::<u16>::empty());
    }
}

// ---------------------------------------------------------------------------------------------
// Lines.

/// A run of characters that share one style.
#[derive(Debug, Clone, PartialEq, Eq)]
pub struct Segment {
    pub text: String,
    pub sgr: Sgr,
}

/// One finished line, in the runs the program painted it in.
#[derive(Debug, Clone, PartialEq, Eq)]
pub struct Line {
    segments: Vec<Segment>,
}

/// A run as its characters and its paint.
pub type Run = (Seq<char>, Sgr);

/// The characters of a line of runs, in order.
pub open spec fn runs_text(runs: Seq<Run>) -> Seq<char>
    decreases runs.len(),
{
    if runs.len() == 0 {
        Seq::empty()
    } else {
        runs_text(runs.drop_last()) + runs.last().0
    }
}

impl Line {
    pub closed spec fn runs(&self) -> Seq<Run> {
        self.segments@.map_values(|s: Segment| (s.text@, s.sgr))
    }

    /// The line a plain string makes: one unpainted run, or no run at all for an empty string.
    pub fn plain(text: &str) -> (r: Line)
        ensures
            r.runs() == (if text@.len() == 0 {
                Seq::<Run>::empty()
            } else {
                seq![(text@, plain_sgr())]
            }),
    {
        let mut segments: Vec<Segment> = Vec::new();
        if text.unicode_len() > 0 {
            segments.push(Segment { text: String::from_str(text), sgr: Sgr::plain() });
        }
        let r = Line { segments };
        assert(r.runs() =~= (if text@.len() == 0 {
            Seq::<Run>::empty()
        } else {
            seq![(text@, plain_sgr())]
        }));
        r
    }

    pub fn segments(&self) -> (r: &[Segment])
        ensures
            r@.map_values(|s: Segment| (s.text@, s.sgr)) == self.runs(),
    {
        self.segments.as_slice()
    }

    pub fn text(&self) -> (r: String)
        ensures
            r@ == runs_text(self.runs()),
    {
        let mut r = String::new();
        let mut i: usize = 0;
        while i < self.segments.len()
            invariant
                i <= self.segments@.len(),
                r@ == runs_text(self.runs().subrange(0, i as int)),
            decreases self.segments.len() - i,
        {
            r.append(self.segments[i].text.as_str());
            assert(self.runs().subrange(0, i as int + 1).drop_last() =~= self.runs().subrange(0, i as int));
            i += 1;
        }
        assert(self.runs().subrange(0, i as int) =~= self.runs());
        r
    }

    /// How many characters the line holds; a count past `usize::MAX` reads as `usize::MAX`.
    pub fn width(&self) -> (r: usize)
        ensures
            r == if runs_text(self.runs()).len() <= usize::MAX {
                runs_text(self.runs()).len()
            } else {
                usize::MAX as nat
            },
    {
        let mut w: usize = 0;
        let mut i: usize = 0;
        while i < self.segments.len()
            invariant
                i <= self.segments@.len(),
                w == if runs_text(self.runs().subrange(0, i as int)).len() <= usize::MAX {
                    runs_text(self.runs().subrange(0, i as int)).len()
                } else {
                    usize::MAX as nat
                },
            decreases self.segments.len() - i,
        {
            assert(self.runs().subrange(0, i as int + 1).drop_last() =~= self.runs().subrange(0, i as int));
            let n = self.segments[i].text.as_str().unicode_len();
            w = w.saturating_add(n);
            i += 1;
        }
        assert(self.runs().subrange(0, i as int) =~= self.runs());
        w
    }

    pub fn is_empty(&self) -> (r: bool)
        ensures
            r == (runs_text(self.runs()).len() == 0),
    {
        self.width() == 0
    }

    /// The first `width` characters, each keeping its paint. Cut, never reflowed.
    pub fn clip(&self, width: usize) -> (r: Line)
        ensures
            r.runs() == clip_runs(self.runs(), width as nat),
    {
        let mut left = width;
        let mut segments: Vec<Segment> = Vec::new();
        let mut i: usize = 0;
        while i < self.segments.len()
            invariant
                i <= self.segments@.len(),
                segments@.map_values(|s: Segment| (s.text@, s.sgr)) == clip_from(
                    self.runs().subrange(0, i as int),
                    width as nat,
                ).0,
                left as nat == clip_from(self.runs().subrange(0, i as int), width as nat).1,
            decreases self.segments.len() - i,
        {
            assert(self.runs().subrange(0, i as int + 1).drop_last() =~= self.runs().subrange(0, i as int));
            if left == 0 {
                proof {
                    lemma_clip_from_spent(self.runs(), i as int, width as nat);
                }
                assert(self.runs().subrange(0, self.segments@.len() as int) =~= self.runs());
                let r = Line { segments };
                assert(r.runs() =~= clip_runs(self.runs(), width as nat));
                return r;
            }
            let segment = &self.segments[i];
            let n = segment.text.as_str().unicode_len();
            let take = if n < left { n } else { left };
            let text = String::from_str(segment.text.as_str().substring_char(0, take));
            left = left - take;
            let ghost before = segments@.map_values(|s: Segment| (s.text@, s.sgr));
            segments.push(Segment { text, sgr: segment.sgr });
            assert(segments@.map_values(|s: Segment| (s.text@, s.sgr)) =~= before.push(
                (segment.text@.subrange(0, take as int), segment.sgr),
            ));
            i += 1;
        }
        assert(self.runs().subrange(0, i as int) =~= self.runs());
        let r = Line { segments };
        assert(r.runs() =~= clip_runs(self.runs(), width as nat));
        r
    }
}

/// The runs kept by clipping to `width`, and how many characters were still to spare.
pub open spec fn clip_from(runs: Seq<Run>, width: nat) -> (Seq<Run>, nat)
    decreases runs.len(),
{
    if runs.len() == 0 {
        (Seq::empty(), width)
    } else {
        let (kept, left) = clip_from(runs.drop_last(), width);
        if left == 0 {
            (kept, 0)
        } else {
            let run = runs.last();
            let take = if run.0.len() < left {
                run.0.len()
            } else {
                left
            };
            (kept.push((run.0.subrange(0, take as int), run.1)), (left - take) as nat)
        }
    }
}

/// The runs of a line clipped to `width` characters.
pub open spec fn clip_runs(runs: Seq<Run>, width: nat) -> Seq<Run> {
    clip_from(runs, width).0
}

/// The paint of the `k`-th character of a line of runs.
pub open spec fn paint_at(runs: Seq<Run>, k: int) -> Sgr
    decreases runs.len(),
{
    if runs.len() == 0 {
        plain_sgr()
    } else if k < runs_text(runs.drop_last()).len() {
        paint_at(runs.drop_last(), k)
    } else {
        runs.last().1
    }
}

/// What a clip keeps is the start of the text, each character in its own paint, and it stops
/// short of the width only when the text ran out.
proof fn lemma_clip_from_keeps(runs: Seq<Run>, width: nat)
    ensures
        ({
            let (kept, left) = clip_from(runs, width);
            &&& left <= width
            &&& width - left <= runs_text(runs).len()
            &&& runs_text(kept) == runs_text(runs).subrange(0, width - left)
            &&& (left > 0 ==> width - left == runs_text(runs).len())
            &&& forall|k: int| 0 <= k < width - left ==> paint_at(kept, k) == paint_at(runs, k)
        }),
    decreases runs.len(),
{
    if runs.len() > 0 {
        let init = runs.drop_last();
        let r = runs.last();
        lemma_clip_from_keeps(init, width);
        let (kept0, left0) = clip_from(init, width);
        let l = runs_text(init).len();
        assert(runs_text(runs) == runs_text(init) + r.0);
        if left0 == 0 {
            assert(runs_text(kept0) =~= runs_text(runs).subrange(0, width as int));
            assert forall|k: int| 0 <= k < width implies paint_at(kept0, k) == paint_at(runs, k) by {}
        } else {
            let take = if r.0.len() < left0 {
                r.0.len()
            } else {
                left0
            };
            let piece = (r.0.subrange(0, take as int), r.1);
            let kept = kept0.push(piece);
            assert(kept.drop_last() =~= kept0);
            assert(runs_text(kept) == runs_text(kept0) + piece.0);
            assert(runs_text(kept) =~= runs_text(runs).subrange(0, (l + take) as int));
            assert forall|k: int| 0 <= k < l + take implies paint_at(kept, k) == paint_at(runs, k) by {
                assert(runs_text(kept0).len() == l);
                assert(runs_text(kept.drop_last()).len() == l);
                if k < l {
                    assert(paint_at(kept, k) == paint_at(kept0, k));
                    assert(paint_at(runs, k) == paint_at(init, k));
                } else {
                    assert(paint_at(kept, k) == piece.1);
                    assert(paint_at(runs, k) == r.1);
                }
            }
        }
    } else {
        assert(runs_text(runs).subrange(0, 0) =~= Seq::<char>::empty());
    }
}

/// Clipping a line to `width` keeps exactly its first `width` characters, or all of them when it
/// is shorter, and every character kept keeps the paint it had.
pub proof fn law_a_clip_keeps_the_start_in_its_paint(runs: Seq<Run>, width: nat)
    ensures
        ({
            let text = runs_text(runs);
            let kept = if width < text.len() {
                width
            } else {
                text.len()
            };
            &&& runs_text(clip_runs(runs, width)) == text.subrange(0, kept as int)
            &&& forall|k: int| 0 <= k < kept ==> paint_at(clip_runs(runs, width), k) == paint_at(runs, k)
        }),
{
    lemma_clip_from_keeps(runs, width);
}

/// Once nothing is left to spare, the runs after do not change what a clip keeps.
proof fn lemma_clip_from_spent(runs: Seq<Run>, i: int, width: nat)
    requires
        0 <= i <= runs.len(),
        clip_from(runs.subrange(0, i), width).1 == 0,
    ensures
        clip_from(runs, width) == clip_from(runs.subrange(0, i), width),
    decreases runs.len() - i,
{
    if i < runs.len() {
        let next = runs.subrange(0, i + 1);
        assert(next.drop_last() =~= runs.subrange(0, i));
        lemma_clip_from_spent(runs, i + 1, width);
    } else {
        assert(runs.subrange(0, i) =~= runs);
    }
}

/// The text of a prefix of runs is never longer than the text of all of them.
proof fn lemma_runs_text_prefix(runs: Seq<Run>, i: int)
    requires
        0 <= i <= runs.len(),
    ensures
        runs_text(runs.subrange(0, i)).len() <= runs_text(runs).len(),
    decreases runs.len() - i,
{
    if i < runs.len() {
        lemma_runs_text_prefix(runs, i + 1);
        assert(runs.subrange(0, i + 1).drop_last() =~= runs.subrange(0, i));
    } else {
        assert(runs.subrange(0, i) =~= runs);
    }
}

// ---------------------------------------------------------------------------------------------
// The filter.

/// The replacement character a byte no decoder takes is spent as.
pub const REPLACEMENT: char = '\u{fffd}';

/// One character as the cursor left it, paint included.
#[derive(Debug, Clone, Copy)]
pub struct Cell {
    pub character: char,
    pub sgr: Sgr,
}

/// Where in a sequence the last chunk ran out.
#[derive(Debug, Clone, Copy, PartialEq, Eq, Structural)]
pub enum Scan {
    Text,
    /// An escape whose next character decides what it is.
    Escape,
    /// CSI parameters, up to a final character in `0x40..=0x7e`.
    Csi,
    /// An OSC string, terminated by BEL or by `ESC \`.
    Osc { after_escape: bool },
    /// An escape with an intermediate character takes one more.
    Intermediate,
}

/// A filter as what it holds: the bytes of a character cut in half, the line as the cursor left
/// it, where the cursor is, how far into a sequence it is, the paint in force and the parameters of
/// a sequence being scanned.
#[verifier::ext_equal]
pub struct FilterView {
    pub pending: Seq<u8>,
    pub line: Seq<Cell>,
    pub cursor: nat,
    pub scan: Scan,
    pub sgr: Sgr,
    pub params: Seq<char>,
}

/// A filter that has seen nothing.
pub open spec fn fresh() -> FilterView {
    FilterView {
        pending: Seq::empty(),
        line: Seq::empty(),
        cursor: 0,
        scan: Scan::Text,
        sgr: plain_sgr(),
        params: Seq::empty(),
    }
}

// Decoding, one byte at a time.

/// A byte that starts a character of two, three or four bytes.
pub open spec fn is_lead(b: u8) -> bool {
    0xc2 <= b && b <= 0xf4
}

/// How many bytes the character a lead byte starts takes.
pub open spec fn width_of_lead(b: u8) -> nat {
    if b <= 0xdf {
        2
    } else if b <= 0xef {
        3
    } else {
        4
    }
}

/// Whether `b` carries on the character `p` began: a continuation byte, in the narrower range the
/// second byte after E0, ED, F0 and F4 must fall in.
pub open spec fn continues(p: Seq<u8>, b: u8) -> bool {
    if p.len() == 1 && p[0] == 0xe0 {
        0xa0 <= b && b <= 0xbf
    } else if p.len() == 1 && p[0] == 0xed {
        0x80 <= b && b <= 0x9f
    } else if p.len() == 1 && p[0] == 0xf0 {
        0x90 <= b && b <= 0xbf
    } else if p.len() == 1 && p[0] == 0xf4 {
        0x80 <= b && b <= 0x8f
    } else {
        0x80 <= b && b <= 0xbf
    }
}

/// The code point a whole multi-byte character encodes.
pub open spec fn code_point(q: Seq<u8>) -> int {
    if q.len() == 2 {
        (q[0] - 0xc0) * 64 + (q[1] - 0x80)
    } else if q.len() == 3 {
        (q[0] - 0xe0) * 4096 + (q[1] - 0x80) * 64 + (q[2] - 0x80)
    } else {
        (q[0] - 0xf0) * 262144 + (q[1] - 0x80) * 4096 + (q[2] - 0x80) * 64 + (q[3] - 0x80)
    }
}

/// The character a code point names, or the replacement character.
pub open spec fn scalar_char(v: int) -> char {
    if is_scalar(v) {
        v as char
    } else {
        REPLACEMENT
    }
}

/// A byte met with nothing pending: an ASCII character, the start of a longer one, or a byte no
/// decoder takes.
pub open spec fn start_byte(b: u8) -> (Seq<u8>, Seq<char>) {
    if b < 0x80 {
        (Seq::empty(), seq![b as char])
    } else if is_lead(b) {
        (seq![b], Seq::empty())
    } else {
        (Seq::empty(), seq![REPLACEMENT])
    }
}

/// One byte decoded after the bytes pending: what is pending afterwards and the characters it
/// completed. A character cut short by a byte that cannot carry it on is spent as one replacement
/// character, and the byte is read afresh.
pub open spec fn decode_byte(p: Seq<u8>, b: u8) -> (Seq<u8>, Seq<char>) {
    if p.len() == 0 {
        start_byte(b)
    } else if continues(p, b) {
        let q = p.push(b);
        if q.len() >= width_of_lead(p[0]) {
            (Seq::empty(), seq![scalar_char(code_point(q))])
        } else {
            (q, Seq::empty())
        }
    } else {
        let (q, cs) = start_byte(b);
        (q, seq![REPLACEMENT] + cs)
    }
}

// Characters.

/// The runs a line of cells is drawn in: one per stretch of cells that share a paint.
pub open spec fn runs_of(cells: Seq<Cell>) -> Seq<Run>
    decreases cells.len(),
{
    if cells.len() == 0 {
        Seq::empty()
    } else {
        let prev = runs_of(cells.drop_last());
        let c = cells.last();
        if prev.len() > 0 && prev.last().1 == c.sgr {
            prev.update(prev.len() - 1, (prev.last().0.push(c.character), c.sgr))
        } else {
            prev.push((seq![c.character], c.sgr))
        }
    }
}

/// The characters of a line of cells.
pub open spec fn cell_chars(cells: Seq<Cell>) -> Seq<char> {
    cells.map_values(|c: Cell| c.character)
}

/// `c` written at the cursor, over what was there or at the end, and the cursor one on.
pub open spec fn place(f: FilterView, c: char) -> FilterView {
    let cell = Cell { character: c, sgr: f.sgr };
    let line = if f.cursor < f.line.len() {
        f.line.update(f.cursor as int, cell)
    } else {
        f.line.push(cell)
    };
    FilterView { line, cursor: f.cursor + 1, ..f }
}

/// The filter once its line has been handed over.
pub open spec fn finished(f: FilterView) -> FilterView {
    FilterView { line: Seq::empty(), cursor: 0, ..f }
}

pub open spec fn is_final(c: char) -> bool {
    0x40 <= (c as u32) && (c as u32) <= 0x7e
}

pub open spec fn is_intermediate(c: char) -> bool {
    0x20 <= (c as u32) && (c as u32) <= 0x2f
}

/// One character read where the scan left off: the filter afterwards and the line it finished, if
/// any.
pub open spec fn scan_step(f: FilterView, c: char) -> (FilterView, Seq<Seq<Run>>) {
    match f.scan {
        Scan::Text => {
            if c == '\u{1b}' {
                (FilterView { scan: Scan::Escape, ..f }, Seq::empty())
            } else if c == '\n' {
                (finished(f), seq![runs_of(f.line)])
            } else if c == '\r' {
                (FilterView { cursor: 0, ..f }, Seq::empty())
            } else if c == '\t' {
                (place(place(place(place(f, ' '), ' '), ' '), ' '), Seq::empty())
            } else if is_control(c) {
                (f, Seq::empty())
            } else {
                (place(f, c), Seq::empty())
            }
        },
        Scan::Escape => {
            if c == '[' {
                (FilterView { scan: Scan::Csi, params: Seq::empty(), ..f }, Seq::empty())
            } else if c == ']' {
                (FilterView { scan: Scan::Osc { after_escape: false }, ..f }, Seq::empty())
            } else if is_intermediate(c) {
                (FilterView { scan: Scan::Intermediate, ..f }, Seq::empty())
            } else {
                (FilterView { scan: Scan::Text, ..f }, Seq::empty())
            }
        },
        Scan::Csi => {
            if is_final(c) {
                if c == 'm' {
                    (
                        FilterView {
                            scan: Scan::Text,
                            sgr: apply_params(f.sgr, f.params),
                            params: Seq::empty(),
                            ..f
                        },
                        Seq::empty(),
                    )
                } else {
                    (FilterView { scan: Scan::Text, ..f }, Seq::empty())
                }
            } else {
                (FilterView { params: f.params.push(c), ..f }, Seq::empty())
            }
        },
        Scan::Osc { after_escape } => {
            if c == '\u{7}' || (c == '\\' && after_escape) {
                (FilterView { scan: Scan::Text, ..f }, Seq::empty())
            } else {
                (FilterView { scan: Scan::Osc { after_escape: c == '\u{1b}' }, ..f }, Seq::empty())
            }
        },
        Scan::Intermediate => (FilterView { scan: Scan::Text, ..f }, Seq::empty()),
    }
}

/// One step of the scan, and a line that has grown to the longest a line may be handed over
/// unfinished.
#[verifier::opaque]
pub open spec fn cell_step(f: FilterView, c: char) -> (FilterView, Seq<Seq<Run>>) {
    let (g, lines) = scan_step(f, c);
    if g.line.len() >= LONGEST_LINE {
        (finished(g), lines.push(runs_of(g.line)))
    } else {
        (g, lines)
    }
}

/// One character. A tab in the text is four spaces, each placed and measured on its own, so a line
/// is handed over at exactly the longest it may be and the rest of the tab starts the next.
pub open spec fn char_step(f: FilterView, c: char) -> (FilterView, Seq<Seq<Run>>) {
    if f.scan is Text && c == '\t' {
        let (a, l1) = cell_step(f, ' ');
        let (b, l2) = cell_step(a, ' ');
        let (d, l3) = cell_step(b, ' ');
        let (e, l4) = cell_step(d, ' ');
        (e, l1 + l2 + l3 + l4)
    } else {
        cell_step(f, c)
    }
}

/// Characters in order.
pub open spec fn feed_chars(f: FilterView, cs: Seq<char>) -> (FilterView, Seq<Seq<Run>>)
    decreases cs.len(),
{
    if cs.len() == 0 {
        (f, Seq::empty())
    } else {
        let (g, ls) = feed_chars(f, cs.drop_last());
        let (h, ms) = char_step(g, cs.last());
        (h, ls + ms)
    }
}

/// Feeding one character is one step.
proof fn lemma_feed_one(g: FilterView, a: char)
    ensures
        feed_chars(g, seq![a]) == (char_step(g, a).0, Seq::<Seq<Run>>::empty() + char_step(g, a).1),
{
    assert(seq![a].drop_last() =~= Seq::<char>::empty());
    assert(feed_chars(g, Seq::<char>::empty()) == (g, Seq::<Seq<Run>>::empty()));
    assert(seq![a].last() == a);
}

/// Feeding two characters is two steps.
proof fn lemma_feed_two(g: FilterView, a: char, c: char)
    ensures
        feed_chars(g, seq![a, c]) == (
            char_step(char_step(g, a).0, c).0,
            (Seq::<Seq<Run>>::empty() + char_step(g, a).1) + char_step(char_step(g, a).0, c).1,
        ),
{
    assert(seq![a, c].drop_last() =~= seq![a]);
    lemma_feed_one(g, a);
}

/// One byte: decoded, and whatever it completed read.
pub open spec fn byte_step(f: FilterView, b: u8) -> (FilterView, Seq<Seq<Run>>) {
    let (p, cs) = decode_byte(f.pending, b);
    feed_chars(FilterView { pending: p, ..f }, cs)
}

/// A chunk of bytes: the filter afterwards and the lines the chunk completed, in order.
pub open spec fn absorb_spec(f: FilterView, bytes: Seq<u8>) -> (FilterView, Seq<Seq<Run>>)
    decreases bytes.len(),
{
    if bytes.len() == 0 {
        (f, Seq::empty())
    } else {
        let (g, ls) = absorb_spec(f, bytes.drop_last());
        let (h, ms) = byte_step(g, bytes.last());
        (h, ls + ms)
    }
}

/// A line fit to be shown: no control character in it, and no longer than a line is let grow.
pub open spec fn clean(runs: Seq<Run>) -> bool {
    &&& runs_text(runs).len() <= LONGEST_LINE
    &&& forall|i: int| 0 <= i < runs_text(runs).len() ==> !is_control(#[trigger] runs_text(runs)[i])
}

impl FilterView {
    /// What every filter keeps true between calls.
    pub open spec fn wf(self) -> bool {
        &&& self.pending.len() < 4
        &&& (self.pending.len() > 0 ==> is_lead(self.pending[0]) && self.pending.len()
            < width_of_lead(self.pending[0]))
        &&& forall|i: int| 1 <= i < self.pending.len() ==> 0x80 <= #[trigger] self.pending[i] <= 0xbf
        &&& self.cursor <= self.line.len()
        &&& self.line.len() < LONGEST_LINE
        &&& forall|i: int| 0 <= i < self.line.len() ==> !is_control(#[trigger] self.line[i].character)
    }
}

/// The runs of a line of cells hold exactly the cells' characters.
pub proof fn lemma_runs_text(cells: Seq<Cell>)
    ensures
        runs_text(runs_of(cells)) == cell_chars(cells),
    decreases cells.len(),
{
    if cells.len() > 0 {
        lemma_runs_text(cells.drop_last());
        let prev = runs_of(cells.drop_last());
        let c = cells.last();
        if prev.len() > 0 && prev.last().1 == c.sgr {
            let upd = prev.update(prev.len() - 1, (prev.last().0.push(c.character), c.sgr));
            assert(upd.drop_last() =~= prev.drop_last());
            assert(runs_text(prev) == runs_text(prev.drop_last()) + prev.last().0);
            assert(runs_text(upd) == runs_text(upd.drop_last()) + upd.last().0);
        } else {
            assert(prev.push((seq![c.character], c.sgr)).drop_last() =~= prev);
        }
        assert(cell_chars(cells) =~= cell_chars(cells.drop_last()).push(c.character));
    }
}

/// A line finished from clean cells is clean.
proof fn lemma_finished_clean(cells: Seq<Cell>)
    requires
        cells.len() <= LONGEST_LINE,
        forall|i: int| 0 <= i < cells.len() ==> !is_control(#[trigger] cells[i].character),
    ensures
        clean(runs_of(cells)),
{
    lemma_runs_text(cells);
    assert forall|i: int| 0 <= i < runs_text(runs_of(cells)).len() implies !is_control(
        #[trigger] runs_text(runs_of(cells))[i],
    ) by {
        assert(cell_chars(cells)[i] == cells[i].character);
    }
}

/// One source's output, mid-line and mid-sequence.
pub struct Filter {
    /// The bytes of a character a chunk cut in half.
    tail: Vec<u8>,
    /// The line being written, as the cursor has left it.
    line: Vec<Cell>,
    /// Where the next character lands.
    cursor: usize,
    scan: Scan,
    /// The paint in force, which outlives the chunk that set it.
    sgr: Sgr,
    /// Parameters of the sequence being scanned.
    params: Vec<char>,
}

impl View for Filter {
    type V = FilterView;

    closed spec fn view(&self) -> FilterView {
        FilterView {
            pending: self.tail@,
            line: self.line@,
            cursor: self.cursor as nat,
            scan: self.scan,
            sgr: self.sgr,
            params: self.params@,
        }
    }
}

/// The runs of each line.
pub open spec fn runs_of_lines(lines: Seq<Line>) -> Seq<Seq<Run>> {
    lines.map_values(|l: Line| l.runs())
}

impl Filter {
    pub fn new() -> (r: Filter)
        ensures
            r@ == fresh(),
            r@.wf(),
    {
        let r = Filter {
            tail: Vec::new(),
            line: Vec::new(),
            cursor: 0,
            scan: Scan::Text,
            sgr: Sgr::plain(),
            params: Vec::new(),
        };
        assert(r@ =~= fresh());
        r
    }

    /// The lines `bytes` completed, in order. The line still being written stays here until its
    /// newline arrives, however many chunks that takes.
    pub fn absorb(&mut self, bytes: &[u8]) -> (lines: Vec<Line>)
        requires
            old(self)@.wf(),
        ensures
            final(self)@.wf(),
            final(self)@ == absorb_spec(old(self)@, bytes@).0,
            runs_of_lines(lines@) == absorb_spec(old(self)@, bytes@).1,
            forall|i: int| 0 <= i < lines@.len() ==> clean(#[trigger] lines@[i].runs()),
    {
        let mut lines: Vec<Line> = Vec::new();
        let ghost start = self@;
        let mut i: usize = 0;
        assert(bytes@.subrange(0, 0) =~= Seq::<u8>::empty());
        while i < bytes.len()
            invariant
                i <= bytes@.len(),
                self@.wf(),
                self@ == absorb_spec(start, bytes@.subrange(0, i as int)).0,
                runs_of_lines(lines@) == absorb_spec(start, bytes@.subrange(0, i as int)).1,
                forall|j: int| 0 <= j < lines@.len() ==> clean(#[trigger] lines@[j].runs()),
            decreases bytes.len() - i,
        {
            assert(bytes@.subrange(0, i as int + 1).drop_last() =~= bytes@.subrange(0, i as int));
            self.feed_byte(bytes[i], &mut lines);
            i += 1;
        }
        assert(bytes@.subrange(0, bytes@.len() as int) =~= bytes@);
        lines
    }

    /// The line still being written, for a source that has ended without a newline after it.
    pub fn rest(&mut self) -> (r: Option<Line>)
        requires
            old(self)@.wf(),
        ensures
            final(self)@.wf(),
            old(self)@.line.len() == 0 ==> r is None && final(self)@ == old(self)@,
            old(self)@.line.len() > 0 ==> (r matches Some(line) && line.runs() == runs_of(
                old(self)@.line,
            ) && final(self)@ == finished(old(self)@)),
    {
        if self.line.len() == 0 {
            None
        } else {
            Some(self.finish())
        }
    }

    /// Everything of the previous generation goes, half a line and half a sequence included.
    pub fn reset(&mut self)
        ensures
            final(self)@ == fresh(),
            final(self)@.wf(),
    {
        *self = Filter::new();
    }

    /// The cells collapsed into one run per paint.
    fn finish(&mut self) -> (r: Line)
        ensures
            r.runs() == runs_of(old(self)@.line),
            final(self)@ == finished(old(self)@),
    {
        let mut segments: Vec<Segment> = Vec::new();
        let mut i: usize = 0;
        let ghost cells = self.line@;
        assert(cells.subrange(0, 0) =~= Seq::<Cell>::empty());
        while i < self.line.len()
            invariant
                i <= self.line@.len(),
                cells == self.line@,
                segments@.map_values(|s: Segment| (s.text@, s.sgr)) == runs_of(cells.subrange(0, i as int)),
            decreases self.line.len() - i,
        {
            let cell = self.line[i];
            let ghost before = segments@.map_values(|s: Segment| (s.text@, s.sgr));
            let ghost prefix = cells.subrange(0, i as int + 1);
            assert(prefix.drop_last() =~= cells.subrange(0, i as int));
            assert(prefix.last() == cell);
            let n = segments.len();
            if n > 0 && segments[n - 1].sgr == cell.sgr {
                let mut last = segments.pop().unwrap();
                push_char(&mut last.text, cell.character);
                segments.push(last);
                assert(segments@.map_values(|s: Segment| (s.text@, s.sgr)) =~= before.update(
                    before.len() - 1,
                    (before.last().0.push(cell.character), cell.sgr),
                ));
            } else {
                let mut text = String::new();
                push_char(&mut text, cell.character);
                segments.push(Segment { text, sgr: cell.sgr });
                assert(segments@.map_values(|s: Segment| (s.text@, s.sgr)) =~= before.push(
                    (seq![cell.character], cell.sgr),
                ));
            }
            i += 1;
        }
        assert(cells.subrange(0, i as int) =~= cells);
        self.line = Vec::new();
        self.cursor = 0;
        let r = Line { segments };
        assert(self@ =~= finished(old(self)@));
        r
    }

    fn place(&mut self, c: char)
        requires
            old(self).cursor <= old(self).line@.len(),
            old(self).line@.len() < LONGEST_LINE + 4,
        ensures
            final(self)@ == place(old(self)@, c),
            final(self).cursor <= final(self).line@.len(),
            final(self).line@.len() <= old(self).line@.len() + 1,
    {
        let cell = Cell { character: c, sgr: self.sgr };
        if self.cursor < self.line.len() {
            self.line.set(self.cursor, cell);
        } else {
            self.line.push(cell);
        }
        self.cursor = self.cursor + 1;
        assert(self@ =~= place(old(self)@, c));
    }

    /// One byte: decoded, and each character it completed read.
    fn feed_byte(&mut self, b: u8, lines: &mut Vec<Line>)
        requires
            old(self)@.wf(),
            forall|j: int| 0 <= j < old(lines)@.len() ==> clean(#[trigger] old(lines)@[j].runs()),
        ensures
            final(self)@.wf(),
            final(self)@ == byte_step(old(self)@, b).0,
            runs_of_lines(final(lines)@) == runs_of_lines(old(lines)@) + byte_step(old(self)@, b).1,
            forall|j: int| 0 <= j < final(lines)@.len() ==> clean(#[trigger] final(lines)@[j].runs()),
    {
        let ghost f = self@;
        let ghost l0 = runs_of_lines(lines@);
        let (first, second) = self.decode(b);
        let ghost g = self@;
        let ghost cs = decode_byte(f.pending, b).1;
        assert(g == FilterView { pending: decode_byte(f.pending, b).0, ..f });
        assert(byte_step(f, b) == feed_chars(g, cs));
        if first.is_some() {
            let a = first.unwrap();
            self.feed_char(a, lines);
            if second.is_some() {
                let c = second.unwrap();
                let ghost h = self@;
                self.feed_char(c, lines);
                assert(cs =~= seq![a, c]);
                assert(cs.drop_last() =~= seq![a]);
                assert(cs.drop_last().drop_last() =~= Seq::<char>::empty());
                let ghost e = Seq::<Seq<Run>>::empty();
                proof {
                    lemma_feed_two(g, a, c);
                }
                assert(runs_of_lines(lines@) =~= l0 + ((e + char_step(g, a).1)
                    + char_step(h, c).1));
            } else {
                assert(cs =~= seq![a]);
                assert(cs.drop_last() =~= Seq::<char>::empty());
                let ghost e = Seq::<Seq<Run>>::empty();
                proof {
                    lemma_feed_one(g, a);
                }
                assert(runs_of_lines(lines@) =~= l0 + (e + char_step(g, a).1));
            }
        } else {
            assert(cs.len() == 0);
            assert(feed_chars(g, cs) == (g, Seq::<Seq<Run>>::empty()));
            assert(runs_of_lines(lines@) =~= l0 + byte_step(f, b).1);
        }
    }

    /// The pending bytes after `b`, and the characters `b` completed, first to last.
    fn decode(&mut self, b: u8) -> (r: (Option<char>, Option<char>))
        requires
            old(self)@.wf(),
        ensures
            final(self)@ == (FilterView { pending: decode_byte(old(self)@.pending, b).0, ..old(self)@ }),
            final(self)@.pending.len() < 4,
            final(self)@.pending.len() > 0 ==> is_lead(final(self)@.pending[0]) && final(self)@.pending.len()
                < width_of_lead(final(self)@.pending[0]),
            forall|i: int| 1 <= i < final(self)@.pending.len() ==> 0x80 <= #[trigger] final(self)@.pending[i] <= 0xbf,
            decode_byte(old(self)@.pending, b).1 == (match r {
                (None, _) => Seq::<char>::empty(),
                (Some(a), None) => seq![a],
                (Some(a), Some(c)) => seq![a, c],
            }),
    {
        let ghost p = self.tail@;
        if self.tail.len() == 0 {
            let r = self.start(b);
            return (r, None);
        }
        let lead = self.tail[0];
        let n = self.tail.len();
        let carries = if n == 1 && lead == 0xe0 {
            0xa0 <= b && b <= 0xbf
        } else if n == 1 && lead == 0xed {
            0x80 <= b && b <= 0x9f
        } else if n == 1 && lead == 0xf0 {
            0x90 <= b && b <= 0xbf
        } else if n == 1 && lead == 0xf4 {
            0x80 <= b && b <= 0x8f
        } else {
            0x80 <= b && b <= 0xbf
        };
        assert(carries == continues(p, b));
        if carries {
            let need: usize = if lead <= 0xdf {
                2
            } else if lead <= 0xef {
                3
            } else {
                4
            };
            self.tail.push(b);
            if self.tail.len() >= need {
                let q = &self.tail;
                let v: u32 = if need == 2 {
                    (q[0] - 0xc0) as u32 * 64 + (q[1] - 0x80) as u32
                } else if need == 3 {
                    (q[0] - 0xe0) as u32 * 4096 + (q[1] - 0x80) as u32 * 64 + (q[2] - 0x80) as u32
                } else {
                    (q[0] - 0xf0) as u32 * 262144 + (q[1] - 0x80) as u32 * 4096 + (q[2] - 0x80) as u32
                        * 64 + (q[3] - 0x80) as u32
                };
                assert(v as int == code_point(p.push(b)));
                let c = match char_from_u32(v) {
                    Some(c) => c,
                    None => REPLACEMENT,
                };
                self.tail = Vec::new();
                assert(self@ =~= (FilterView { pending: decode_byte(p, b).0, ..old(self)@ }));
                (Some(c), None)
            } else {
                assert(self@ =~= (FilterView { pending: decode_byte(p, b).0, ..old(self)@ }));
                (None, None)
            }
        } else {
            self.tail = Vec::new();
            let r = self.start(b);
            assert(decode_byte(p, b).1 =~= seq![REPLACEMENT] + start_byte(b).1);
            match r {
                None => (Some(REPLACEMENT), None),
                Some(c) => (Some(REPLACEMENT), Some(c)),
            }
        }
    }

    /// A byte met with nothing pending.
    fn start(&mut self, b: u8) -> (r: Option<char>)
        requires
            old(self).tail@.len() == 0,
        ensures
            final(self)@ == (FilterView { pending: start_byte(b).0, ..old(self)@ }),
            start_byte(b).1 == (match r {
                None => Seq::<char>::empty(),
                Some(c) => seq![c],
            }),
    {
        if b < 0x80 {
            assert(self@ =~= (FilterView { pending: start_byte(b).0, ..old(self)@ }));
            Some(b as char)
        } else if 0xc2 <= b && b <= 0xf4 {
            self.tail.push(b);
            assert(self@ =~= (FilterView { pending: start_byte(b).0, ..old(self)@ }));
            None
        } else {
            assert(self@ =~= (FilterView { pending: start_byte(b).0, ..old(self)@ }));
            Some(REPLACEMENT)
        }
    }

    /// One character read where the scan left off: a tab in the text as four spaces.
    fn feed_char(&mut self, c: char, lines: &mut Vec<Line>)
        requires
            old(self).cursor <= old(self).line@.len(),
            old(self).line@.len() < LONGEST_LINE,
            forall|i: int| 0 <= i < old(self)@.line.len() ==> !is_control(#[trigger] old(self)@.line[i].character),
            forall|j: int| 0 <= j < old(lines)@.len() ==> clean(#[trigger] old(lines)@[j].runs()),
        ensures
            final(self)@ == char_step(old(self)@, c).0,
            final(self)@.pending == old(self)@.pending,
            runs_of_lines(final(lines)@) == runs_of_lines(old(lines)@) + char_step(old(self)@, c).1,
            final(self).cursor <= final(self).line@.len(),
            final(self).line@.len() < LONGEST_LINE,
            forall|i: int| 0 <= i < final(self)@.line.len() ==> !is_control(#[trigger] final(self)@.line[i].character),
            forall|j: int| 0 <= j < final(lines)@.len() ==> clean(#[trigger] final(lines)@[j].runs()),
    {
        let is_text = match self.scan {
            Scan::Text => true,
            _ => false,
        };
        if is_text && c == '\t' {
            let ghost f = self@;
            let ghost l0 = runs_of_lines(lines@);
            self.feed_cell(' ', lines);
            let ghost a = self@;
            let ghost l1 = runs_of_lines(lines@);
            self.feed_cell(' ', lines);
            let ghost b = self@;
            let ghost l2 = runs_of_lines(lines@);
            self.feed_cell(' ', lines);
            let ghost d = self@;
            let ghost l3 = runs_of_lines(lines@);
            self.feed_cell(' ', lines);
            assert(runs_of_lines(lines@) =~= l0 + (cell_step(f, ' ').1 + cell_step(a, ' ').1
                + cell_step(b, ' ').1 + cell_step(d, ' ').1));
        } else {
            self.feed_cell(c, lines);
        }
    }

    /// One step of the scan where it left off.
    fn feed_cell(&mut self, c: char, lines: &mut Vec<Line>)
        requires
            !(old(self)@.scan is Text && c == '\t'),
            old(self).cursor <= old(self).line@.len(),
            old(self).line@.len() < LONGEST_LINE,
            forall|i: int| 0 <= i < old(self)@.line.len() ==> !is_control(#[trigger] old(self)@.line[i].character),
            forall|j: int| 0 <= j < old(lines)@.len() ==> clean(#[trigger] old(lines)@[j].runs()),
        ensures
            final(self)@ == cell_step(old(self)@, c).0,
            final(self)@.pending == old(self)@.pending,
            runs_of_lines(final(lines)@) == runs_of_lines(old(lines)@) + cell_step(old(self)@, c).1,
            final(self).cursor <= final(self).line@.len(),
            final(self).line@.len() < LONGEST_LINE,
            forall|i: int| 0 <= i < final(self)@.line.len() ==> !is_control(#[trigger] final(self)@.line[i].character),
            forall|j: int| 0 <= j < final(lines)@.len() ==> clean(#[trigger] final(lines)@[j].runs()),
    {
        let ghost f = self@;
        let ghost l0 = lines@;
        reveal(cell_step);
        match self.scan {
            Scan::Text => {
                if c == '\u{1b}' {
                    self.scan = Scan::Escape;
                } else if c == '\n' {
                    proof {
                        assert(self.line@ =~= f.line);
                        lemma_finished_clean(f.line);
                    }
                    let line = self.finish();
                    lines.push(line);
                } else if c == '\r' {
                    self.cursor = 0;
                } else if c == '\t' {
                    self.place(' ');
                    self.place(' ');
                    self.place(' ');
                    self.place(' ');
                } else if control(c) {
                } else {
                    self.place(c);
                }
            },
            Scan::Escape => {
                if c == '[' {
                    self.params = Vec::new();
                    self.scan = Scan::Csi;
                } else if c == ']' {
                    self.scan = Scan::Osc { after_escape: false };
                } else if 0x20 <= (c as u32) && (c as u32) <= 0x2f {
                    self.scan = Scan::Intermediate;
                } else {
                    self.scan = Scan::Text;
                }
            },
            Scan::Csi => {
                if 0x40 <= (c as u32) && (c as u32) <= 0x7e {
                    if c == 'm' {
                        let mut params: Vec<char> = Vec::new();
                        std::mem::swap(&mut params, &mut self.params);
                        self.sgr.apply(&params);
                    }
                    self.scan = Scan::Text;
                } else {
                    self.params.push(c);
                }
            },
            Scan::Osc { after_escape } => {
                if c == '\u{7}' || (c == '\\' && after_escape) {
                    self.scan = Scan::Text;
                } else {
                    self.scan = Scan::Osc { after_escape: c == '\u{1b}' };
                }
            },
            Scan::Intermediate => {
                self.scan = Scan::Text;
            },
        }
        let ghost g = self@;
        assert(g == scan_step(f, c).0);
        assert(runs_of_lines(lines@) == runs_of_lines(l0) + scan_step(f, c).1) by {
            assert(runs_of_lines(l0 + Seq::<Line>::empty()) =~= runs_of_lines(l0));
        }
        assert(forall|i: int| 0 <= i < self@.line.len() ==> !is_control(#[trigger] self@.line[i].character));
        if self.line.len() >= LONGEST_LINE {
            proof {
                lemma_finished_clean(self.line@);
            }
            let ghost l1 = lines@;
            let line = self.finish();
            lines.push(line);
            assert(runs_of_lines(lines@) =~= runs_of_lines(l1).push(runs_of(g.line)));
        }
    }
}

/// Lines come out the same however the bytes are cut into chunks: absorbing `a` and then `b` is
/// absorbing `a + b`.
pub proof fn law_absorb_chunked(f: FilterView, a: Seq<u8>, b: Seq<u8>)
    ensures
        absorb_spec(f, a + b).0 == absorb_spec(absorb_spec(f, a).0, b).0,
        absorb_spec(f, a + b).1 == absorb_spec(f, a).1 + absorb_spec(absorb_spec(f, a).0, b).1,
    decreases b.len(),
{
    if b.len() == 0 {
        assert(a + b =~= a);
        assert(absorb_spec(f, a).1 + Seq::<Seq<Run>>::empty() =~= absorb_spec(f, a).1);
    } else {
        law_absorb_chunked(f, a, b.drop_last());
        assert((a + b).drop_last() =~= a + b.drop_last());
        assert((a + b).last() == b.last());
        let g = absorb_spec(absorb_spec(f, a).0, b.drop_last());
        let s = byte_step(g.0, b.last());
        assert(absorb_spec(f, a).1 + g.1 + s.1 =~= absorb_spec(f, a).1 + (g.1 + s.1));
    }
}

/// The bytes of some chunks, one after another.
pub open spec fn joined_chunks(chunks: Seq<Seq<u8>>) -> Seq<u8>
    decreases chunks.len(),
{
    if chunks.len() == 0 {
        Seq::empty()
    } else {
        joined_chunks(chunks.drop_last()) + chunks.last()
    }
}

/// A filter fed `chunks` one by one: where it ends, and every line each feed gave, in order.
pub open spec fn absorb_chunks(f: FilterView, chunks: Seq<Seq<u8>>) -> (FilterView, Seq<Seq<Run>>)
    decreases chunks.len(),
{
    if chunks.len() == 0 {
        (f, Seq::empty())
    } else {
        let (g, ls) = absorb_chunks(f, chunks.drop_last());
        let (h, ms) = absorb_spec(g, chunks.last());
        (h, ls + ms)
    }
}

/// However a stream is cut into chunks, the lines fed one chunk at a time are the lines of the
/// whole stream fed at once, and the filter is left in the same state.
pub proof fn law_any_chunking_yields_the_same(f: FilterView, chunks: Seq<Seq<u8>>)
    ensures
        absorb_chunks(f, chunks) == absorb_spec(f, joined_chunks(chunks)),
    decreases chunks.len(),
{
    if chunks.len() > 0 {
        let init = chunks.drop_last();
        law_any_chunking_yields_the_same(f, init);
        law_absorb_chunked(f, joined_chunks(init), chunks.last());
    } else {
        assert(absorb_spec(f, Seq::<u8>::empty()).1 =~= Seq::<Seq<Run>>::empty());
    }
}

/// A reset filter is a fresh one: nothing of the previous generation reaches the next.
pub proof fn law_reset_is_fresh()
    ensures
        fresh().wf(),
{
}

} // verus!
