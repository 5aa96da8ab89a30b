//! A cursor over a tape of words.
use vstd::prelude::*;
use crate::error::ExecError;
use crate::opcode::Operation;

verus! {

/// What a cursor is: the words it may read, and how many of them lie behind
/// it.
pub struct TapeView {
    pub words: Seq<u64>,
    pub offset: nat,
}

impl TapeView {
    /// Whether a word stands under the cursor.
    pub open spec fn has_next(self) -> bool {
        self.offset < self.words.len()
    }

    /// The word under the cursor.
    pub open spec fn current(self) -> u64
        recommends
            self.has_next(),
    {
        self.words[self.offset as int]
    }

    /// The word after the one under the cursor.
    pub open spec fn following(self) -> u64
        recommends
            self.offset + 1 < self.words.len(),
    {
        self.words[self.offset as int + 1]
    }

    /// The same tape with the cursor at `offset`.
    pub open spec fn at(self, offset: nat) -> TapeView {
        TapeView { words: self.words, offset }
    }

    /// The same tape with the cursor `amount` words further.
    pub open spec fn advanced(self, amount: nat) -> TapeView {
        self.at(self.offset + amount)
    }
}

/// A cursor over a borrowed buffer of words.  It reads forward, can be sent
/// to any offset, and never changes the buffer.
#[derive(Debug, Clone, Copy)]
pub struct Tape<'a> {
    tape: &'a [u64],
    size: usize,
    offset: u64,
}

impl<'a> View for Tape<'a> {
    type V = TapeView;

    closed spec fn view(&self) -> TapeView {
        TapeView { words: self.tape@.take(self.size as int), offset: self.offset as nat }
    }
}

impl<'a> Tape<'a> {
    #[verifier::type_invariant]
    spec fn inv(self) -> bool {
        self.size <= self.tape@.len()
    }

    /// A cursor at the start of the first `size` words of `tape`, or of all
    /// of them where `tape` holds fewer.
    pub fn new(tape: &'a [u64], size: usize) -> (r: Self)
        ensures
            r@.words == tape@.take(if size <= tape@.len() { size as int } else { tape@.len() as int }),
            r@.offset == 0,
    {
        let size = if size <= tape.len() { size } else { tape.len() };
        Tape { tape, size, offset: 0 }
    }

    /// The number of words the cursor may read in all.
    pub fn len(&self) -> (r: usize)
        ensures
            r == self@.words.len(),
    {
        proof {
            use_type_invariant(self);
        }
        self.size
    }

    /// Reads the word under the cursor and moves one word on.  Fails, and
    /// leaves the cursor where it is, when no word is left.
    pub fn get_next(&mut self) -> (r: Result<u64, ExecError>)
        ensures
            old(self)@.has_next() ==> r == Ok::<u64, ExecError>(old(self)@.current()) && final(self)@
                == old(self)@.advanced(1),
            !old(self)@.has_next() ==> r == Err::<u64, ExecError>(ExecError::OutOfRange)
                && final(self)@ == old(self)@,
    {
        proof {
            use_type_invariant(&*self);
        }
        if self.offset >= self.size as u64 {
            return Err(ExecError::OutOfRange);
        }
        let word = self.tape[self.offset as usize];
        self.offset = self.offset + 1;
        Ok(word)
    }

    /// The word under the cursor, which stays where it is.
    pub fn read(&self) -> (r: Result<u64, ExecError>)
        ensures
            self@.has_next() ==> r == Ok::<u64, ExecError>(self@.current()),
            !self@.has_next() ==> r == Err::<u64, ExecError>(ExecError::OutOfRange),
            self@.words.len() <= usize::MAX,
    {
        proof {
            use_type_invariant(self);
        }
        if self.offset >= self.size as u64 {
            return Err(ExecError::OutOfRange);
        }
        Ok(self.tape[self.offset as usize])
    }

    /// The word after the one under the cursor, which stays where it is.
    pub fn peek(&self) -> (r: Result<u64, ExecError>)
        ensures
            self@.offset + 1 < self@.words.len() ==> r == Ok::<u64, ExecError>(
                self@.following(),
            ),
            self@.offset + 1 >= self@.words.len() ==> r == Err::<u64, ExecError>(
                ExecError::OutOfRange,
            ),
    {
        proof {
            use_type_invariant(self);
        }
        if self.offset >= self.size as u64 || self.offset + 1 >= self.size as u64 {
            return Err(ExecError::OutOfRange);
        }
        Ok(self.tape[(self.offset + 1) as usize])
    }

    /// Reads two words as one number of 128 bits, the first word being its
    /// low half, and moves two words on.  Fails, and leaves the cursor where
    /// it is, unless two words are left.
    pub fn get_next_u128(&mut self) -> (r: Result<u128, ExecError>)
        ensures
            old(self)@.offset + 1 < old(self)@.words.len() ==> r == Ok::<u128, ExecError>(
                (old(self)@.current() + old(self)@.following() * 0x1_0000_0000_0000_0000) as u128,
            ) && final(self)@ == old(self)@.advanced(2),
            old(self)@.offset + 1 >= old(self)@.words.len() ==> r == Err::<u128, ExecError>(
                ExecError::OutOfRange,
            ) && final(self)@ == old(self)@,
    {
        proof {
            use_type_invariant(&*self);
        }
        if self.offset >= self.size as u64 || self.offset + 1 >= self.size as u64 {
            return Err(ExecError::OutOfRange);
        }
        let low: u64 = self.tape[self.offset as usize];
        let high: u64 = self.tape[(self.offset + 1) as usize];
        self.offset = self.offset + 2;
        Ok(low as u128 + high as u128 * 0x1_0000_0000_0000_0000u128)
    }

    /// Reads the next word as the bit pattern of a number.
    pub fn get_next_float(&mut self) -> (r: Result<u64, ExecError>)
        ensures
            old(self)@.has_next() ==> r == Ok::<u64, ExecError>(old(self)@.current()) && final(self)@
                == old(self)@.advanced(1),
            !old(self)@.has_next() ==> r == Err::<u64, ExecError>(ExecError::OutOfRange)
                && final(self)@ == old(self)@,
    {
        self.get_next()
    }

    /// Reads the next word as an operation.  Fails with `OutOfRange` when no
    /// word is left, and with `InvalidOpcode`, the word being consumed, when
    /// the word stands for no operation.
    pub fn get_next_func(&mut self) -> (r: Result<Operation, ExecError>)
        ensures
            !old(self)@.has_next() ==> r == Err::<Operation, ExecError>(ExecError::OutOfRange)
                && final(self)@ == old(self)@,
            old(self)@.has_next() ==> final(self)@ == old(self)@.advanced(1) && r == (
            match Operation::of_word(old(self)@.current()) {
                Some(op) => Ok::<Operation, ExecError>(op),
                None => Err::<Operation, ExecError>(ExecError::InvalidOpcode),
            }),
    {
        match self.get_next() {
            Ok(word) => match Operation::decode(word) {
                Some(op) => Ok(op),
                None => Err(ExecError::InvalidOpcode),
            },
            Err(e) => Err(e),
        }
    }

    /// The offset of the cursor, to come back to with [`Tape::restore`].
    pub fn save(&self) -> (r: u64)
        ensures
            r == self@.offset,
    {
        self.offset
    }

    /// Puts the cursor back at an offset that [`Tape::save`] gave.
    pub fn restore(&mut self, offset: u64)
        ensures
            final(self)@ == old(self)@.at(offset as nat),
    {
        proof {
            use_type_invariant(&*self);
        }
        self.offset = offset;
    }

    /// Sends the cursor to `offset`, wherever that is; a later read fails if
    /// no word stands there.
    pub fn move_to(&mut self, offset: u64)
        ensures
            final(self)@ == old(self)@.at(offset as nat),
    {
        proof {
            use_type_invariant(&*self);
        }
        self.offset = offset;
    }

    /// Moves the cursor `amount` words on without reading them.
    pub fn skip(&mut self, amount: u64)
        requires
            old(self)@.offset + amount <= u64::MAX,
        ensures
            final(self)@ == old(self)@.advanced(amount as nat),
    {
        proof {
            use_type_invariant(&*self);
        }
        self.offset = self.offset + amount;
    }
}

} // verus!
