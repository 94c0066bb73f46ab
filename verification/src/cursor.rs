//! The reader that the parsers share: a text and a position in it that
//! only moves forwards.

use vstd::prelude::*;
use crate::scan::{run_end, CharClass};

verus! {

/// A text that is read once, from the start to the end, one character at a
/// time.
pub struct Cursor {
    chars: Vec<char>,
    pos: usize,
}

impl Cursor {
    #[verifier::type_invariant]
    spec fn in_bounds(&self) -> bool {
        self.pos <= self.chars@.len()
    }

    /// The whole text, read or not.
    pub closed spec fn text(&self) -> Seq<char> {
        self.chars@
    }

    /// How many characters have been read.
    pub closed spec fn position(&self) -> int {
        self.pos as int
    }

    /// A cursor at the start of `text`.
    pub fn new(text: &str) -> (cursor: Cursor)
        ensures
            cursor.text() == text@,
            cursor.position() == 0,
    {
        let mut chars: Vec<char> = Vec::new();
        for c in it: text.chars()
            invariant
                it.seq() == text@,
                chars@ == text@.take(it.index()),
        {
            chars.push(c);
        }
        Cursor { chars, pos: 0 }
    }

    /// How many characters have been read.
    pub fn offset(&self) -> (n: usize)
        ensures
            n == self.position(),
            0 <= self.position() <= self.text().len(),
    {
        proof {
            use_type_invariant(self);
        }
        self.pos
    }

    /// The next character, which stays unread.
    pub fn peek(&self) -> (c: Option<char>)
        ensures
            0 <= self.position() <= self.text().len(),
            c == (if self.position() < self.text().len() {
                Some(self.text()[self.position()])
            } else {
                None::<char>
            }),
    {
        proof {
            use_type_invariant(self);
        }
        if self.pos < self.chars.len() {
            Some(self.chars[self.pos])
        } else {
            None
        }
    }

    /// Reads the next character. At the end of the text nothing is read.
    pub fn next(&mut self) -> (c: Option<char>)
        ensures
            final(self).text() == old(self).text(),
            0 <= old(self).position() <= old(self).text().len(),
            c == (if old(self).position() < old(self).text().len() {
                Some(old(self).text()[old(self).position()])
            } else {
                None::<char>
            }),
            final(self).position() == old(self).position() + (if c is Some { 1int } else { 0int }),
    {
        proof {
            use_type_invariant(&*self);
        }
        if self.pos < self.chars.len() {
            let c = self.chars[self.pos];
            self.pos = self.pos + 1;
            Some(c)
        } else {
            None
        }
    }

    /// Reads the characters of `class` as far as they go and returns them.
    pub fn take_run(&mut self, class: CharClass) -> (run: Vec<char>)
        ensures
            final(self).text() == old(self).text(),
            0 <= old(self).position() <= final(self).position() <= old(self).text().len(),
            final(self).position() == run_end(old(self).text(), old(self).position(), class),
            run@ == old(self).text().subrange(old(self).position(), final(self).position()),
    {
        proof {
            use_type_invariant(&*self);
        }
        let ghost start = self.pos as int;
        let mut run: Vec<char> = Vec::new();
        let mut reading = true;
        while reading
            invariant
                self.chars@ == old(self).chars@,
                start == old(self).pos,
                start <= self.pos <= self.chars@.len(),
                run@ == self.chars@.subrange(start, self.pos as int),
                run_end(self.chars@, start, class) == run_end(self.chars@, self.pos as int, class),
                !reading ==> run_end(self.chars@, self.pos as int, class) == self.pos,
            decreases self.chars@.len() - self.pos + (if reading { 1int } else { 0int }),
        {
            if self.pos < self.chars.len() && class.holds(self.chars[self.pos]) {
                run.push(self.chars[self.pos]);
                self.pos = self.pos + 1;
                assert(run@ =~= self.chars@.subrange(start, self.pos as int));
            } else {
                reading = false;
            }
        }
        run
    }

    /// Reads the characters of `class` as far as they go.
    pub fn skip_run(&mut self, class: CharClass)
        ensures
            final(self).text() == old(self).text(),
            0 <= old(self).position() <= final(self).position() <= old(self).text().len(),
            final(self).position() == run_end(old(self).text(), old(self).position(), class),
    {
        proof {
            use_type_invariant(&*self);
        }
        let ghost start = self.pos as int;
        let mut reading = true;
        while reading
            invariant
                self.chars@ == old(self).chars@,
                start == old(self).pos,
                start <= self.pos <= self.chars@.len(),
                run_end(self.chars@, start, class) == run_end(self.chars@, self.pos as int, class),
                !reading ==> run_end(self.chars@, self.pos as int, class) == self.pos,
            decreases self.chars@.len() - self.pos + (if reading { 1int } else { 0int }),
        {
            if self.pos < self.chars.len() && class.holds(self.chars[self.pos]) {
                self.pos = self.pos + 1;
            } else {
                reading = false;
            }
        }
    }
}

} // verus!
