//! The popup's geometry: how a row is cut into columns, how far the cursor may move, how much room
//! the notices get, and how a notice or a heading is fitted to the width it has.

use vstd::prelude::*;
use vstd::string::*;

use crate::rows::Row;
use crate::text::{joined, push_char, split_whitespace, views, words_of};

verus! {

pub const KIND_WIDTH: usize = 6;
pub const STATE_WIDTH: usize = 8;
pub const TIMING_WIDTH: usize = 9;
pub const NAME_MIN_WIDTH: usize = 8;
pub const GAP: usize = 1;
pub const INDENT: &'static str = "  ";
/// What a notice wears so it cannot be mistaken for a row, and what a wrapped one is indented by.
pub const NOTICE_MARK: &'static str = "! ";

/// `n` spaces.
pub open spec fn spaces(n: nat) -> Seq<char>
    decreases n,
{
    if n == 0 {
        Seq::empty()
    } else {
        spaces((n - 1) as nat).push(' ')
    }
}

/// A cell padded to its column and the gap after it; a cell wider than that is left whole.
pub open spec fn padded(cell: Seq<char>, width: nat) -> Seq<char> {
    cell + spaces(if cell.len() < width + 1 {
        (width + 1 - cell.len()) as nat
    } else {
        0
    })
}

pub fn pad(cell: &str, width: usize) -> (r: String)
    requires
        width < usize::MAX,
    ensures
        r@ == padded(cell@, width as nat),
{
    let n = cell.unicode_len();
    let filler: usize = if n < width + GAP {
        width + GAP - n
    } else {
        0
    };
    let mut r = String::from_str(cell);
    let mut i: usize = 0;
    while i < filler
        invariant
            i <= filler,
            r@ == cell@ + spaces(i as nat),
        decreases filler - i,
    {
        push_char(&mut r, ' ');
        i += 1;
        assert(r@ =~= cell@ + spaces(i as nat));
    }
    r
}

/// A unit of an unfolded repo is stepped in: only its name moves.
pub open spec fn label_spec(row: Row) -> Seq<char> {
    if row.indent {
        seq![' ', ' '] + row.name@
    } else {
        row.name@
    }
}

pub fn label(row: &Row) -> (r: String)
    ensures
        r@ == label_spec(*row),
{
    if row.indent {
        let mut r = String::from_str(INDENT);
        r.append(row.name.as_str());
        proof {
            reveal_strlit("  ");
            assert("  "@ =~= seq![' ', ' ']);
        }
        r
    } else {
        row.name.clone()
    }
}

/// The six columns, each padded to its own width bar the note, which takes what is left.
pub open spec fn cells_spec(row: Row, name_width: nat) -> Seq<Seq<char>> {
    seq![
        row.glyph@,
        padded(label_spec(row), name_width),
        padded(row.kind@, 6),
        padded(row.state@, 8),
        padded(row.timing@, 9),
        row.note@,
    ]
}

pub fn cells(row: &Row, name_width: usize) -> (r: Vec<String>)
    requires
        name_width < usize::MAX,
    ensures
        views(r@) == cells_spec(*row, name_width as nat),
{
    let glyph = String::from_str(row.glyph);
    let name = pad(label(row).as_str(), name_width);
    let kind = pad(row.kind, KIND_WIDTH);
    let state = pad(row.state.as_str(), STATE_WIDTH);
    let timing = pad(row.timing.as_str(), TIMING_WIDTH);
    let note = row.note.clone();
    let r = vec![glyph, name, kind, state, timing, note];
    assert(views(r@) =~= cells_spec(*row, name_width as nat));
    r
}

/// Where the cursor lands moving `delta` rows through a list of `len`: it never wraps and never
/// leaves the list.
pub open spec fn stepped_spec(cursor: int, delta: int, len: int) -> int {
    if len == 0 {
        0
    } else if delta < 0 {
        if cursor + delta < 0 {
            0
        } else {
            cursor + delta
        }
    } else if cursor + delta < len - 1 {
        cursor + delta
    } else {
        len - 1
    }
}

pub fn stepped(cursor: usize, delta: isize, len: usize) -> (r: usize)
    requires
        delta >= 0 ==> cursor + delta <= usize::MAX,
    ensures
        r == stepped_spec(cursor as int, delta as int, len as int),
{
    if len == 0 {
        0
    } else if delta < 0 {
        let back: usize = if delta == isize::MIN {
            (isize::MAX as usize) + 1
        } else {
            (-delta) as usize
        };
        if back > cursor {
            0
        } else {
            cursor - back
        }
    } else {
        let ahead = cursor + delta as usize;
        if ahead < len - 1 {
            ahead
        } else {
            len - 1
        }
    }
}

/// How much of the popup the notices may take: half of it, and never the last row of the list.
pub open spec fn notice_room_spec(height: nat) -> nat {
    let half = height / 2;
    let spare: nat = if height >= 3 {
        (height - 3) as nat
    } else {
        0
    };
    if half < spare {
        half
    } else {
        spare
    }
}

pub fn notice_room(height: u16) -> (r: usize)
    ensures
        r == notice_room_spec(height as nat),
{
    let height = height as usize;
    let half = height / 2;
    let spare = if height >= 3 {
        height - 3
    } else {
        0
    };
    if half < spare {
        half
    } else {
        spare
    }
}

/// The lines `words` wrap into, greedily: a word joins the line before it when the two and a space
/// fit, and otherwise starts a line of its own, even when it is wider than the line.
pub open spec fn wrapped(words: Seq<Seq<char>>, width: nat) -> Seq<Seq<char>>
    decreases words.len(),
{
    if words.len() == 0 {
        Seq::empty()
    } else {
        let lines = wrapped(words.drop_last(), width);
        let word = words.last();
        if lines.len() > 0 && lines.last().len() + 1 + word.len() <= width {
            lines.update(lines.len() - 1, lines.last() + seq![' '] + word)
        } else {
            lines.push(word)
        }
    }
}

/// The lines a notice is wrapped into at `width`: one empty line when there is no word at all.
pub open spec fn wrap_spec(text: Seq<char>, width: nat) -> Seq<Seq<char>> {
    let lines = wrapped(words_of(text), width);
    if lines.len() == 0 {
        seq![Seq::empty()]
    } else {
        lines
    }
}

pub fn wrap(text: &str, width: usize) -> (r: Vec<String>)
    ensures
        views(r@) == wrap_spec(text@, width as nat),
{
    let words = split_whitespace(text);
    let ghost ws = views(words@);
    let mut lines: Vec<String> = Vec::new();
    let mut i: usize = 0;
    while i < words.len()
        invariant
            i <= words@.len(),
            ws == views(words@),
            views(lines@) == wrapped(ws.subrange(0, i as int), width as nat),
        decreases words.len() - i,
    {
        let ghost before = views(lines@);
        assert(ws.subrange(0, i as int + 1).drop_last() =~= ws.subrange(0, i as int));
        assert(ws.subrange(0, i as int + 1).last() == words@[i as int]@);
        let word = words[i].as_str();
        let n = lines.len();
        let fits = n > 0 && {
            let last = lines[n - 1].unicode_len();
            last as u128 + 1 + word.unicode_len() as u128 <= width as u128
        };
        if fits {
            let mut last = lines[n - 1].clone();
            let ghost old_last = last@;
            assert(old_last == before[n - 1]);
            push_char(&mut last, ' ');
            last.append(word);
            assert(last@ =~= old_last + seq![' '] + word@);
            lines.set(n - 1, last);
            assert(views(lines@) =~= before.update(n - 1, old_last + seq![' '] + word@));
        } else {
            lines.push(String::from_str(word));
            assert(views(lines@) =~= before.push(word@));
        }
        i += 1;
    }
    assert(ws.subrange(0, words@.len() as int) =~= ws);
    if lines.len() == 0 {
        lines.push(String::new());
        assert(views(lines@) =~= seq![Seq::<char>::empty()]);
    }
    lines
}

/// A heading too long for the room it has keeps its tail, after an ellipsis.
pub open spec fn elided(text: Seq<char>, room: nat) -> Seq<char> {
    if room == 0 {
        Seq::empty()
    } else if text.len() <= room {
        text
    } else {
        seq!['…'] + text.skip(text.len() + 1 - room)
    }
}

pub fn elide(text: &str, room: usize) -> (r: String)
    ensures
        r@ == elided(text@, room as nat),
{
    let length = text.unicode_len();
    if room == 0 {
        String::new()
    } else if length <= room {
        String::from_str(text)
    } else {
        let mut r = String::new();
        push_char(&mut r, '…');
        r.append(text.substring_char((length - room) + 1, length));
        assert(r@ =~= seq!['…'] + text@.skip(length + 1 - room));
        r
    }
}

/// The heading, the key hints and at least one row of the list always fit beside the notices.
pub proof fn law_the_notices_never_take_the_last_row(height: nat)
    requires
        height >= 3,
    ensures
        notice_room_spec(height) + 3 <= height,
        notice_room_spec(height) <= height / 2,
{
}

proof fn lemma_wrapped_empty(words: Seq<Seq<char>>, width: nat)
    ensures
        (wrapped(words, width).len() == 0) == (words.len() == 0),
    decreases words.len(),
{
    if words.len() > 0 {
        lemma_wrapped_empty(words.drop_last(), width);
    }
}

proof fn lemma_joined_extend_last(lines: Seq<Seq<char>>, sep: Seq<char>, word: Seq<char>)
    requires
        lines.len() > 0,
    ensures
        joined(lines.update(lines.len() - 1, lines.last() + sep + word), sep) == joined(lines, sep) + sep + word,
{
    let after = lines.update(lines.len() - 1, lines.last() + sep + word);
    if lines.len() == 1 {
        assert(after[0] == lines[0] + sep + word);
    } else {
        assert(after.drop_last() =~= lines.drop_last());
        assert(after.last() == lines.last() + sep + word);
        assert(joined(after, sep) == joined(lines.drop_last(), sep) + sep + (lines.last() + sep + word));
        assert(joined(lines.drop_last(), sep) + sep + (lines.last() + sep + word) =~= joined(lines.drop_last(), sep) + sep + lines.last() + sep + word);
    }
}

/// Wrapping loses no word and adds none: the lines, joined by single spaces, are the words joined
/// by single spaces.
pub proof fn law_wrapping_keeps_every_word(words: Seq<Seq<char>>, width: nat)
    ensures
        joined(wrapped(words, width), seq![' ']) == joined(words, seq![' ']),
    decreases words.len(),
{
    if words.len() > 0 {
        let rest = words.drop_last();
        let word = words.last();
        law_wrapping_keeps_every_word(rest, width);
        lemma_wrapped_empty(rest, width);
        let lines = wrapped(rest, width);
        if lines.len() > 0 && lines.last().len() + 1 + word.len() <= width {
            lemma_joined_extend_last(lines, seq![' '], word);
        } else {
            let pushed = lines.push(word);
            assert(pushed.drop_last() =~= lines);
            if lines.len() == 0 {
                assert(rest.len() == 0);
                assert(joined(pushed, seq![' ']) == word);
            }
        }
    }
}

/// A wrapped line fits its width, unless it is one word wider than the line on its own.
pub proof fn law_a_wrapped_line_fits_or_is_one_word(words: Seq<Seq<char>>, width: nat)
    ensures
        forall|i: int| 0 <= i < wrapped(words, width).len() ==> (#[trigger] wrapped(words, width)[i]).len() <= width
            || words.contains(wrapped(words, width)[i]),
    decreases words.len(),
{
    if words.len() > 0 {
        let rest = words.drop_last();
        let word = words.last();
        law_a_wrapped_line_fits_or_is_one_word(rest, width);
        let lines = wrapped(rest, width);
        let now = wrapped(words, width);
        assert forall|i: int| 0 <= i < now.len() implies (#[trigger] now[i]).len() <= width || words.contains(now[i]) by {
            if i < lines.len() && now[i] == lines[i] {
                if !(lines[i].len() <= width) {
                    let j = choose|j: int| 0 <= j < rest.len() && rest[j] == lines[i];
                    assert(words[j] == rest[j]);
                }
            } else {
                if !(lines.len() > 0 && lines.last().len() + 1 + word.len() <= width) {
                    assert(now[i] == word);
                    assert(words[words.len() - 1] == word);
                }
            }
        }
    }
}

} // verus!
