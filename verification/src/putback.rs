//! A lookahead character stream: reading one character at a time, with the
//! ability to push back an arbitrary number of characters, and 1-indexed
//! line/column tracking for diagnostics.

use vstd::prelude::*;

verus! {

/// The raw stream: the owned source text, a cursor into it, and a pushback
/// buffer whose front is the most recently pushed character.
pub struct UnmarkedPutBackChars {
    pub source: Vec<char>,
    pub position: usize,
    pub buffer: Vec<char>,
}

impl View for UnmarkedPutBackChars {
    type V = Seq<char>;

    open spec fn view(&self) -> Seq<char> {
        self.buffer@ + self.source@.skip(self.position as int)
    }
}

impl UnmarkedPutBackChars {
    pub open spec fn wf(&self) -> bool {
        self.position <= self.source@.len()
    }

    /// A stream positioned at the start of `source`, with nothing pushed back.
    pub fn new(source: Vec<char>) -> (r: Self)
        ensures
            r@ == source@,
            r.wf(),
    {
        let r = UnmarkedPutBackChars { source, position: 0, buffer: Vec::new() };
        proof {
            assert(r@ =~= r.source@);
        }
        r
    }

    /// The next character: the most recently pushed-back one if any, else the
    /// next character of the source.
    pub fn next(&mut self) -> (r: Option<char>)
        requires
            old(self).wf(),
        ensures
            final(self).wf(),
            old(self)@.len() == 0 ==> r == None::<char> && *final(self) == *old(self),
            old(self)@.len() > 0 ==> r == Some(old(self)@[0]) && final(self)@ == old(self)@.skip(1),
    {
        if self.buffer.len() > 0 {
            let c = self.buffer.remove(0);
            proof {
                assert(self@ =~= old(self)@.skip(1));
            }
            Some(c)
        } else if self.position < self.source.len() {
            let c = self.source[self.position];
            self.position = self.position + 1;
            proof {
                assert(self@ =~= old(self)@.skip(1));
                assert(old(self)@[0] == c);
            }
            Some(c)
        } else {
            proof {
                assert(self@ =~= old(self)@);
            }
            None
        }
    }

    /// Pushes one character back; it will be the next one read.
    pub fn putback(&mut self, value: char)
        requires
            old(self).wf(),
        ensures
            final(self).wf(),
            final(self)@ == seq![value] + old(self)@,
    {
        self.buffer.insert(0, value);
        proof {
            assert(self@ =~= seq![value] + old(self)@);
        }
    }
}

/// The stream the parser reads: a raw stream plus 1-indexed line and column
/// counters. Consuming a character advances the column by 1, or, for a
/// newline, advances the line, saves the column it had reached, and resets
/// it to 1; pushing a character back reverses that exact adjustment, a
/// pushed-back newline restoring the saved pre-newline column. The counters
/// saturate at the machine limits instead of wrapping.
pub struct PutBackChars {
    pub internal: UnmarkedPutBackChars,
    pub line_number: usize,
    pub column_number: usize,
    pub column_stack: Vec<usize>,
}

impl View for PutBackChars {
    type V = Seq<char>;

    open spec fn view(&self) -> Seq<char> {
        self.internal@
    }
}

impl PutBackChars {
    pub open spec fn wf(&self) -> bool {
        &&& self.internal.wf()
        &&& self@.len() + 1 <= usize::MAX
    }

    /// A stream over `source`, positioned at line 1, column 1.
    pub fn new(source: Vec<char>) -> (r: Self)
        requires
            source@.len() + 1 <= usize::MAX,
        ensures
            r@ == source@,
            r.wf(),
            r.line_number == 1,
            r.column_number == 1,
            r.column_stack@.len() == 0,
    {
        PutBackChars {
            internal: UnmarkedPutBackChars::new(source),
            line_number: 1,
            column_number: 1,
            column_stack: Vec::new(),
        }
    }

    /// A stream over `source` with one newline pushed back in front, below
    /// the counter layer, so that the first line of the source is treated as
    /// following a line start; the counters still begin at line 1, column 1.
    pub fn new_primed(source: Vec<char>) -> (r: Self)
        requires
            source@.len() + 2 <= usize::MAX,
        ensures
            r@ == seq!['\n'] + source@,
            r.wf(),
            r.line_number == 1,
            r.column_number == 1,
            r.column_stack@.len() == 0,
    {
        let mut internal = UnmarkedPutBackChars::new(source);
        internal.putback('\n');
        PutBackChars {
            internal,
            line_number: 1,
            column_number: 1,
            column_stack: Vec::new(),
        }
    }

    /// The next character; a newline advances the line counter, saves the
    /// column and resets it to 1, any other character advances the column
    /// counter. At end of input the stream is left unchanged.
    pub fn next(&mut self) -> (r: Option<char>)
        requires
            old(self).wf(),
        ensures
            final(self).wf(),
            old(self)@.len() == 0 ==> r == None::<char> && *final(self) == *old(self),
            old(self)@.len() > 0 ==> {
                &&& r == Some(old(self)@[0])
                &&& final(self)@ == old(self)@.skip(1)
                &&& (old(self)@[0] == '\n' ==> final(self).line_number == (
                    if old(self).line_number < usize::MAX { old(self).line_number + 1 } else { old(self).line_number as int }
                ) && final(self).column_number == 1 && final(self).column_stack@ == old(self).column_stack@.push(old(self).column_number))
                &&& (old(self)@[0] != '\n' ==> final(self).column_number == (
                    if old(self).column_number < usize::MAX { old(self).column_number + 1 } else { old(self).column_number as int }
                ) && final(self).line_number == old(self).line_number && final(self).column_stack == old(self).column_stack)
            },
    {
        let ch = self.internal.next();
        match ch {
            Some(c) => {
                if c == '\n' {
                    if self.line_number < usize::MAX {
                        self.line_number = self.line_number + 1;
                    }
                    self.column_stack.push(self.column_number);
                    self.column_number = 1;
                } else {
                    if self.column_number < usize::MAX {
                        self.column_number = self.column_number + 1;
                    }
                }
                Some(c)
            },
            None => None,
        }
    }

    /// Pushes one character back, unwinding the counter adjustment its
    /// consumption made: a newline restores the saved pre-newline column,
    /// any other character decrements the column. Pushing back more
    /// characters than were consumed is a caller error; a newline pushed
    /// back with no saved column leaves the column as it is.
    pub fn putback(&mut self, value: char)
        requires
            old(self).wf(),
            old(self)@.len() + 2 <= usize::MAX,
        ensures
            final(self).wf(),
            final(self)@ == seq![value] + old(self)@,
            value == '\n' ==> final(self).line_number == (
                if old(self).line_number > 1 { old(self).line_number - 1 } else { old(self).line_number as int }
            ) && (old(self).column_stack@.len() > 0 ==> final(self).column_number == old(self).column_stack@.last()
                && final(self).column_stack@ == old(self).column_stack@.drop_last())
                && (old(self).column_stack@.len() == 0 ==> final(self).column_number == old(self).column_number
                && final(self).column_stack@ == old(self).column_stack@),
            value != '\n' ==> final(self).column_number == (
                if old(self).column_number > 0 { old(self).column_number - 1 } else { 0int }
            ) && final(self).line_number == old(self).line_number && final(self).column_stack == old(self).column_stack,
    {
        self.internal.putback(value);
        if value == '\n' {
            if self.line_number > 1 {
                self.line_number = self.line_number - 1;
            }
            match self.column_stack.pop() {
                Some(saved) => {
                    self.column_number = saved;
                },
                None => {},
            }
        } else {
            if self.column_number > 0 {
                self.column_number = self.column_number - 1;
            }
        }
    }

    /// `putback` when the character is present; does nothing for `None`.
    pub fn putback_maybe(&mut self, value: Option<char>)
        requires
            old(self).wf(),
            value matches Some(c) ==> old(self)@.len() + 2 <= usize::MAX,
        ensures
            final(self).wf(),
            value matches Some(c) ==> {
                &&& final(self)@ == seq![c] + old(self)@
                &&& (c == '\n' ==> final(self).line_number == (
                    if old(self).line_number > 1 { old(self).line_number - 1 } else { old(self).line_number as int }
                ) && (old(self).column_stack@.len() > 0 ==> final(self).column_number == old(self).column_stack@.last()
                    && final(self).column_stack@ == old(self).column_stack@.drop_last())
                    && (old(self).column_stack@.len() == 0 ==> final(self).column_number == old(self).column_number
                    && final(self).column_stack@ == old(self).column_stack@))
                &&& (c != '\n' ==> final(self).column_number == (
                    if old(self).column_number > 0 { old(self).column_number - 1 } else { 0int }
                ) && final(self).line_number == old(self).line_number && final(self).column_stack == old(self).column_stack)
            },
            value == None::<char> ==> *final(self) == *old(self),
    {
        if let Some(v) = value {
            self.putback(v);
        }
    }
}

} // verus!
