//! Paths, spelled as strings: joining one onto another as a path does, and naming its last
//! component.

use vstd::prelude::*;
use vstd::string::*;


verus! {

/// `rest` joined onto `base`: an absolute `rest` replaces `base`, an empty `base` gives `rest`, and
/// otherwise one separator sits between them.
pub open spec fn join_spec(base: Seq<char>, rest: Seq<char>) -> Seq<char> {
    if rest.len() > 0 && rest[0] == '/' {
        rest
    } else if base.len() == 0 {
        rest
    } else if base.last() == '/' {
        base + rest
    } else {
        base + seq!['/'] + rest
    }
}

/// `rest` joined onto `base`, as `Path::join` does.
pub fn join(base: &str, rest: &str) -> (r: String)
    ensures
        r@ == join_spec(base@, rest@),
{
    let n = base.unicode_len();
    if rest.unicode_len() > 0 && rest.get_char(0) == '/' {
        String::from_str(rest)
    } else if n == 0 {
        String::from_str(rest)
    } else if base.get_char(n - 1) == '/' {
        let mut r = String::from_str(base);
        r.append(rest);
        r
    } else {
        let mut r = String::from_str(base);
        crate::text::push_char(&mut r, '/');
        r.append(rest);
        r
    }
}

/// The last component of a path: what follows its last separator, trailing separators aside.
pub open spec fn file_name_spec(path: Seq<char>) -> Seq<char>
    decreases path.len(),
{
    if path.len() > 0 && path.last() == '/' {
        file_name_spec(path.drop_last())
    } else {
        last_segment(path)
    }
}

/// What follows the last `/` of `path`, or all of it.
pub open spec fn last_segment(path: Seq<char>) -> Seq<char>
    decreases path.len(),
{
    if path.len() == 0 {
        Seq::empty()
    } else if path.last() == '/' {
        Seq::empty()
    } else {
        last_segment(path.drop_last()).push(path.last())
    }
}

/// The last component of a path.
pub fn file_name(path: &str) -> (r: String)
    ensures
        r@ == file_name_spec(path@),
{
    let chars = crate::text::chars_of(path);
    let mut end = chars.len();
    assert(chars@.subrange(0, end as int) =~= path@);
    while end > 0 && chars[end - 1] == '/'
        invariant
            end <= chars@.len(),
            file_name_spec(path@) == file_name_spec(chars@.subrange(0, end as int)),
            chars@ == path@,
        decreases end,
    {
        assert(chars@.subrange(0, end as int).drop_last() =~= chars@.subrange(0, end as int - 1));
        end -= 1;
    }
    let mut start = end;
    while start > 0 && chars[start - 1] != '/'
        invariant
            start <= end <= chars@.len(),
            last_segment(chars@.subrange(0, end as int)) == last_segment(chars@.subrange(0, start as int))
                + chars@.subrange(start as int, end as int),
        decreases start,
    {
        let ghost s = chars@.subrange(0, start as int);
        assert(s.drop_last() =~= chars@.subrange(0, start as int - 1));
        assert(chars@.subrange(start as int - 1, end as int) =~= seq![s.last()] + chars@.subrange(
            start as int,
            end as int,
        ));
        assert(last_segment(chars@.subrange(0, start as int - 1)).push(s.last()) + chars@.subrange(
            start as int,
            end as int,
        ) =~= last_segment(chars@.subrange(0, start as int - 1)) + chars@.subrange(
            start as int - 1,
            end as int,
        ));
        start -= 1;
    }
    assert(last_segment(chars@.subrange(0, start as int)) =~= Seq::<char>::empty());
    assert(Seq::<char>::empty() + chars@.subrange(start as int, end as int) =~= chars@.subrange(
        start as int,
        end as int,
    ));
    let r = crate::text::string_of(&chars.as_slice()[start..end]);
    r
}


/// `path` with its trailing separators dropped.
pub open spec fn without_slashes(path: Seq<char>) -> Seq<char>
    decreases path.len(),
{
    if path.len() > 0 && path.last() == '/' {
        without_slashes(path.drop_last())
    } else {
        path
    }
}

/// `path` up to and including its last separator.
pub open spec fn without_name(path: Seq<char>) -> Seq<char>
    decreases path.len(),
{
    if path.len() > 0 && path.last() != '/' {
        without_name(path.drop_last())
    } else {
        path
    }
}

/// The directory a file sits in, as the project's root: all before its last component, `/` when
/// that is the root itself, and `.` when there is nothing before it.
pub open spec fn root_spec(file: Seq<char>) -> Seq<char> {
    let before = without_name(without_slashes(file));
    let dir = without_slashes(before);
    if dir.len() > 0 {
        dir
    } else if before.len() > 0 {
        seq!['/']
    } else {
        seq!['.']
    }
}

/// The directory `file` sits in, `.` when it names none.
pub fn root_of(file: &str) -> (r: String)
    ensures
        r@ == root_spec(file@),
{
    let chars = crate::text::chars_of(file);
    let mut end = chars.len();
    assert(chars@.subrange(0, end as int) =~= file@);
    while end > 0 && chars[end - 1] == '/'
        invariant
            end <= chars@.len(),
            chars@ == file@,
            without_slashes(file@) == without_slashes(chars@.subrange(0, end as int)),
        decreases end,
    {
        assert(chars@.subrange(0, end as int).drop_last() =~= chars@.subrange(0, end as int - 1));
        end -= 1;
    }
    assert(without_slashes(file@) == chars@.subrange(0, end as int));
    while end > 0 && chars[end - 1] != '/'
        invariant
            end <= chars@.len(),
            without_name(without_slashes(file@)) == without_name(chars@.subrange(0, end as int)),
        decreases end,
    {
        assert(chars@.subrange(0, end as int).drop_last() =~= chars@.subrange(0, end as int - 1));
        end -= 1;
    }
    let ghost before = chars@.subrange(0, end as int);
    assert(without_name(without_slashes(file@)) == before);
    let before_len = end;
    assert(before.subrange(0, end as int) =~= before);
    while end > 0 && chars[end - 1] == '/'
        invariant
            end <= before_len <= chars@.len(),
            before == chars@.subrange(0, before_len as int),
            without_slashes(before) == without_slashes(chars@.subrange(0, end as int)),
        decreases end,
    {
        assert(chars@.subrange(0, end as int).drop_last() =~= chars@.subrange(0, end as int - 1));
        end -= 1;
    }
    assert(without_slashes(before) == chars@.subrange(0, end as int));
    let mut r = String::new();
    if end > 0 {
        r = crate::text::string_of(&chars.as_slice()[0..end]);
    } else if before_len > 0 {
        crate::text::push_char(&mut r, '/');
    } else {
        crate::text::push_char(&mut r, '.');
    }
    r
}

/// What a project rooted at `root` is called: the root's last component, or the root as written
/// when it has none (`/`, `.`, `..`).
pub open spec fn project_name_spec(root: Seq<char>) -> Seq<char> {
    let f = file_name_spec(root);
    if f.len() == 0 || f == seq!['.'] || f == seq!['.', '.'] {
        root
    } else {
        f
    }
}

pub fn project_name(root: &str) -> (r: String)
    ensures
        r@ == project_name_spec(root@),
{
    let f = file_name(root);
    let n = f.unicode_len();
    if n == 0 || (n == 1 && f.as_str().get_char(0) == '.') || (n == 2 && f.as_str().get_char(0) == '.' && f.as_str().get_char(1) == '.') {
        proof {
            if n == 1 {
                assert(f@ =~= seq!['.']);
            }
            if n == 2 {
                assert(f@ =~= seq!['.', '.']);
            }
        }
        String::from_str(root)
    } else {
        proof {
            if n == 1 {
                assert(f@ != seq!['.']);
            }
            if n == 2 {
                assert(f@ != seq!['.', '.']);
            }
        }
        f
    }
}


/// The directory `path` sits in, as `Path::parent` reads one: none for the root or the empty path,
/// the empty path for a single relative component.
pub open spec fn parent_spec(path: Seq<char>) -> Option<Seq<char>> {
    let t = without_slashes(path);
    if t.len() == 0 {
        None
    } else {
        let before = without_name(t);
        let dir = without_slashes(before);
        Some(
            if dir.len() > 0 {
                dir
            } else if before.len() > 0 {
                seq!['/']
            } else {
                Seq::empty()
            },
        )
    }
}

proof fn lemma_without_slashes(path: Seq<char>)
    ensures
        without_slashes(path).len() <= path.len(),
        without_slashes(path).len() > 0 ==> without_slashes(path).last() != '/',
        without_slashes(path) == path.subrange(0, without_slashes(path).len() as int),
    decreases path.len(),
{
    if path.len() > 0 && path.last() == '/' {
        lemma_without_slashes(path.drop_last());
        assert(path.drop_last().subrange(0, without_slashes(path).len() as int) =~= path.subrange(0, without_slashes(path).len() as int));
    } else {
        assert(path.subrange(0, path.len() as int) =~= path);
    }
}

proof fn lemma_without_name(path: Seq<char>)
    ensures
        without_name(path).len() <= path.len(),
        path.len() > 0 && path.last() != '/' ==> without_name(path).len() < path.len(),
    decreases path.len(),
{
    if path.len() > 0 && path.last() != '/' {
        lemma_without_name(path.drop_last());
    }
}

/// A parent is shorter than what it is the parent of.
pub proof fn lemma_parent_shorter(path: Seq<char>)
    ensures
        parent_spec(path) matches Some(q) ==> q.len() < path.len(),
{
    let t = without_slashes(path);
    lemma_without_slashes(path);
    if t.len() > 0 {
        lemma_without_name(t);
        lemma_without_slashes(without_name(t));
    }
}

/// `path` and each directory above it, innermost first, as `Path::ancestors` walks them.
pub open spec fn ancestors_spec(path: Seq<char>) -> Seq<Seq<char>>
    decreases path.len(),
{
    match parent_spec(path) {
        None => seq![path],
        Some(q) => {
            proof {
                lemma_parent_shorter(path);
            }
            seq![path] + ancestors_spec(q)
        },
    }
}

/// The directory `path` sits in, if any.
pub fn parent(path: &str) -> (r: Option<String>)
    ensures
        crate::text::opt_view(r) == parent_spec(path@),
{
    let chars = crate::text::chars_of(path);
    let mut end = chars.len();
    assert(chars@.subrange(0, end as int) =~= path@);
    while end > 0 && chars[end - 1] == '/'
        invariant
            end <= chars@.len(),
            chars@ == path@,
            without_slashes(path@) == without_slashes(chars@.subrange(0, end as int)),
        decreases end,
    {
        assert(chars@.subrange(0, end as int).drop_last() =~= chars@.subrange(0, end as int - 1));
        end -= 1;
    }
    assert(without_slashes(path@) == chars@.subrange(0, end as int));
    if end == 0 {
        return None;
    }
    while end > 0 && chars[end - 1] != '/'
        invariant
            end <= chars@.len(),
            without_name(without_slashes(path@)) == without_name(chars@.subrange(0, end as int)),
        decreases end,
    {
        assert(chars@.subrange(0, end as int).drop_last() =~= chars@.subrange(0, end as int - 1));
        end -= 1;
    }
    let ghost before = chars@.subrange(0, end as int);
    assert(without_name(without_slashes(path@)) == before);
    let before_len = end;
    while end > 0 && chars[end - 1] == '/'
        invariant
            end <= before_len <= chars@.len(),
            before == chars@.subrange(0, before_len as int),
            without_slashes(before) == without_slashes(chars@.subrange(0, end as int)),
        decreases end,
    {
        assert(chars@.subrange(0, end as int).drop_last() =~= chars@.subrange(0, end as int - 1));
        end -= 1;
    }
    assert(without_slashes(before) == chars@.subrange(0, end as int));
    let mut r = String::new();
    if end > 0 {
        r = crate::text::string_of(&chars.as_slice()[0..end]);
    } else if before_len > 0 {
        crate::text::push_char(&mut r, '/');
    }
    Some(r)
}


/// `path` and each directory above it, innermost first.
pub fn ancestors(path: &str) -> (r: Vec<String>)
    ensures
        crate::text::views(r@) == ancestors_spec(path@),
{
    let ghost target = ancestors_spec(path@);
    let mut r: Vec<String> = Vec::new();
    let mut cur = String::from_str(path);
    loop
        invariant_except_break
            crate::text::views(r@) + ancestors_spec(cur@) == target,
        ensures
            crate::text::views(r@) == target,
        decreases cur@.len(),
    {
        let ghost before = r@;
        let here = cur.clone();
        r.push(here);
        assert(crate::text::views(r@) =~= crate::text::views(before).push(cur@));
        match parent(cur.as_str()) {
            None => {
                assert(ancestors_spec(cur@) =~= seq![cur@]);
                assert(crate::text::views(r@) =~= crate::text::views(before) + ancestors_spec(cur@));
                break;
            },
            Some(q) => {
                proof {
                    lemma_parent_shorter(cur@);
                }
                assert(ancestors_spec(cur@) == seq![cur@] + ancestors_spec(q@));
                assert(crate::text::views(r@) + ancestors_spec(q@) =~= crate::text::views(before) + ancestors_spec(cur@));
                cur = q;
            },
        }
    }
    r
}

} // verus!
