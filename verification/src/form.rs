//! The agent-config form: one field, edited in place. Not a text editor: no cursor movement, no
//! selection.

use vstd::prelude::*;
use vstd::string::*;

use crate::agent::Config;
use crate::text::{chars_of, control, is_control, is_whitespace, joined, push_char, split_whitespace, string_of, views, words_of};

verus! {

#[derive(Debug, Clone, PartialEq, Eq)]
pub struct Form {
    pub command: String,
}

impl Form {
    /// Pre-filled from the config as it was loaded, when there is one, so editing never silently
    /// drops a value.
    pub fn open(loaded: Option<Config>) -> (r: Form)
        ensures
            r.command@ == match loaded {
                Some(config) => joined(views(config.command@), seq![' ']),
                None => Seq::<char>::empty(),
            },
    {
        match loaded {
            Some(config) => {
                proof {
                    reveal_strlit(" ");
                    assert(" "@ =~= seq![' ']);
                }
                Form { command: crate::text::join_words(&config.command, " ") }
            },
            None => Form { command: String::new() },
        }
    }

    /// Typing: a printable character lands at the end, a control character is dropped.
    pub fn insert(&mut self, c: char)
        ensures
            final(self).command@ == if is_control(c) {
                old(self).command@
            } else {
                old(self).command@.push(c)
            },
    {
        if control(c) {
            return;
        }
        push_char(&mut self.command, c);
    }

    /// The last character goes; an empty field stays empty.
    pub fn backspace(&mut self)
        ensures
            final(self).command@ == if old(self).command@.len() == 0 {
                old(self).command@
            } else {
                old(self).command@.drop_last()
            },
    {
        let chars = chars_of(self.command.as_str());
        let n = chars.len();
        if n == 0 {
            return;
        }
        let kept = string_of(&chars.as_slice()[0..n - 1]);
        self.command = kept;
        assert(self.command@ =~= old(self).command@.drop_last());
    }

    /// The field split on white space into argv, because each word is quoted on its own before it
    /// is typed into a shell. A field with no word in it is refused.
    pub fn to_config(&self) -> (r: Result<Config, String>)
        ensures
            words_of(self.command@).len() == 0 <==> r is Err,
            r matches Ok(config) ==> views(config.command@) == words_of(self.command@),
            r matches Err(why) ==> why@ == "command is empty"@,
    {
        let command = split_whitespace(self.command.as_str());
        if command.len() == 0 {
            return Err(String::from_str("command is empty"));
        }
        Ok(Config { command })
    }
}

/// Typing a printable character and then erasing it leaves the field as it was.
pub proof fn law_backspace_undoes_insert(before: Seq<char>, c: char)
    requires
        !is_control(c),
    ensures
        before.push(c).drop_last() == before,
{
    assert(before.push(c).drop_last() =~= before);
}

} // verus!
