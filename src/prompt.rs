//! The line editor behind the prompt for the operator's instructions.
use vstd::prelude::*;

verus! {

/// One editing key.
#[derive(Clone, Copy, PartialEq, Eq, Structural, Debug)]
pub enum EditKey {
    Insert(char),
    Backspace,
    Delete,
    Left,
    Right,
}

/// Relies on `String`'s `FromIterator<char>`: the string of those characters in order.
#[verifier::external_body]
fn string_of(chars: &Vec<char>) -> (r: String)
    ensures
        r@ == chars@,
{
    chars.iter().collect()
}

/// The text typed so far and the cursor's position in it.
pub struct PromptBuffer {
    text: Vec<char>,
    cursor: usize,
}

impl PromptBuffer {
    pub closed spec fn text_spec(&self) -> Seq<char> {
        self.text@
    }

    pub closed spec fn cursor_spec(&self) -> nat {
        self.cursor as nat
    }

    pub closed spec fn wf(&self) -> bool {
        self.cursor <= self.text.len()
    }

    pub fn new() -> (r: PromptBuffer)
        ensures
            r.wf(),
            r.text_spec() == Seq::<char>::empty(),
            r.cursor_spec() == 0,
    {
        PromptBuffer { text: Vec::new(), cursor: 0 }
    }

    pub fn cursor(&self) -> (r: usize)
        ensures
            r == self.cursor_spec(),
    {
        self.cursor
    }

    /// Inserts at the cursor, removes around it, or moves it within the text.
    pub fn edit(&mut self, key: EditKey)
        requires
            old(self).wf(),
        ensures
            final(self).wf(),
            ({
                let t = old(self).text_spec();
                let c = old(self).cursor_spec() as int;
                match key {
                    EditKey::Insert(ch) => final(self).text_spec() == t.insert(c, ch)
                        && final(self).cursor_spec() == c + 1,
                    EditKey::Backspace => if c > 0 {
                        final(self).text_spec() == t.remove(c - 1) && final(self).cursor_spec() == c - 1
                    } else {
                        final(self).text_spec() == t && final(self).cursor_spec() == c
                    },
                    EditKey::Delete => final(self).cursor_spec() == c && final(self).text_spec() == if c
                        < t.len() {
                        t.remove(c)
                    } else {
                        t
                    },
                    EditKey::Left => final(self).text_spec() == t && final(self).cursor_spec() == if c > 0 {
                        c - 1
                    } else {
                        c
                    },
                    EditKey::Right => final(self).text_spec() == t && final(self).cursor_spec() == if c
                        < t.len() {
                        c + 1
                    } else {
                        c
                    },
                }
            }),
    {
        match key {
            EditKey::Insert(ch) => {
                self.text.insert(self.cursor, ch);
                assert(self.cursor < self.text.len());
                self.cursor = self.cursor + 1;
            },
            EditKey::Backspace => {
                if self.cursor > 0 {
                    self.text.remove(self.cursor - 1);
                    self.cursor = self.cursor - 1;
                }
            },
            EditKey::Delete => {
                if self.cursor < self.text.len() {
                    self.text.remove(self.cursor);
                }
            },
            EditKey::Left => {
                if self.cursor > 0 {
                    self.cursor = self.cursor - 1;
                }
            },
            EditKey::Right => {
                if self.cursor < self.text.len() {
                    self.cursor = self.cursor + 1;
                }
            },
        }
    }

    /// Drops everything typed.
    pub fn clear(&mut self)
        ensures
            final(self).wf(),
            final(self).text_spec() == Seq::<char>::empty(),
            final(self).cursor_spec() == 0,
    {
        self.text = Vec::new();
        self.cursor = 0;
    }

    /// The text typed so far.
    pub fn text(&self) -> (r: String)
        ensures
            r@ == self.text_spec(),
    {
        string_of(&self.text)
    }

    /// The instructions given: none when nothing was typed.
    pub fn submit(&self) -> (r: Option<String>)
        ensures
            match r {
                Some(s) => self.text_spec().len() > 0 && s@ == self.text_spec(),
                None => self.text_spec().len() == 0,
            },
    {
        if self.text.len() == 0 {
            None
        } else {
            Some(string_of(&self.text))
        }
    }
}

} // verus!
