//! The shell's line editor: an ASCII input line of at most 79 characters with a cursor.
use vstd::prelude::*;
use vstd::utf8::is_ascii_chars;
use vstd::string::StringSliceAdditionalSpecFns;

verus! {

/// Longest input line.
pub const MAX_LINE: usize = 79;

#[derive(PartialEq, Eq, Structural)]
pub enum HandlerResult {
    Continue,
    Done,
}

pub struct Shell {
    pub buffer: String,
    pub index: u8,
}

/// Appends a character.
#[verifier::external_body]
fn string_push(s: &mut String, c: char)
    ensures
        final(s)@ == old(s)@.push(c),
{
    s.push(c);
}

/// Inserts a character at a position of an ASCII string (byte and character positions agree).
#[verifier::external_body]
fn string_insert(s: &mut String, idx: usize, c: char)
    requires
        is_ascii_chars(old(s)@),
        idx <= old(s)@.len(),
    ensures
        final(s)@ == old(s)@.insert(idx as int, c),
{
    s.insert(idx, c);
}

/// Removes the character at a position of an ASCII string and returns it.
#[verifier::external_body]
fn string_remove(s: &mut String, idx: usize) -> (r: char)
    requires
        is_ascii_chars(old(s)@),
        idx < old(s)@.len(),
    ensures
        r == old(s)@[idx as int],
        final(s)@ == old(s)@.remove(idx as int),
{
    s.remove(idx)
}

/// The length of an ASCII string.
fn ascii_len(s: &String) -> (r: usize)
    requires
        is_ascii_chars(s@),
        s@.len() <= MAX_LINE,
    ensures
        r == s@.len(),
{
    let t = s.as_str();
    proof {
        assert(t@ == s@);
        assert(vstd::string::is_ascii(t));
        vstd::string::is_ascii_spec_bytes(t);
        assert(t.spec_bytes().len() == t@.len());
    }
    t.len()
}

/// Typing a character and deleting it again gives back the line: on a line that is not full,
/// `add_char` inserts at the cursor and moves past the character, and `delete_char` removes
/// the character before the cursor and moves back.
pub proof fn lemma_add_then_delete(line: Seq<char>, index: int, c: char)
    requires
        0 <= index <= line.len(),
    ensures
        line.insert(index, c).remove((index + 1) - 1) == line,
{
    assert(line.insert(index, c).remove(index) =~= line);
}

impl Shell {
    /// The line is ASCII, at most 79 characters long, and the cursor is within it.
    pub open spec fn wf(&self) -> bool {
        &&& is_ascii_chars(self.buffer@)
        &&& self.buffer@.len() <= MAX_LINE
        &&& self.index <= self.buffer@.len()
    }

    /// An empty line.
    pub fn new() -> (r: Self)
        ensures
            r.wf(),
            r.buffer@.len() == 0,
            r.index == 0,
    {
        Shell { buffer: String::new(), index: 0 }
    }

    /// Inserts `c` at the cursor and moves the cursor past it, unless the line is full.
    pub fn add_char(&mut self, c: char)
        requires
            old(self).wf(),
            c <= '\u{7f}',
        ensures
            final(self).wf(),
            old(self).buffer@.len() < MAX_LINE ==> final(self).buffer@ == old(self).buffer@.insert(old(self).index as int, c)
                && final(self).index == old(self).index + 1,
            old(self).buffer@.len() >= MAX_LINE ==> final(self).buffer@ == old(self).buffer@ && final(self).index == old(self).index,
    {
        let len = ascii_len(&self.buffer);
        if len < MAX_LINE {
            if self.index as usize == len {
                string_push(&mut self.buffer, c);
                assert(self.buffer@ =~= old(self).buffer@.insert(old(self).index as int, c));
                self.index = self.index + 1;
            } else {
                string_insert(&mut self.buffer, self.index as usize, c);
                self.index = self.index + 1;
            }
        }
    }

    /// Deletes the character before the cursor and moves the cursor back.
    pub fn delete_char(&mut self)
        requires
            old(self).wf(),
        ensures
            final(self).wf(),
            old(self).index == 0 ==> final(self).buffer@ == old(self).buffer@ && final(self).index == 0,
            old(self).index > 0 ==> final(self).buffer@ == old(self).buffer@.remove(old(self).index - 1)
                && final(self).index == old(self).index - 1,
    {
        if self.index == 0 {
            return;
        }
        self.index = self.index - 1;
        let _ = string_remove(&mut self.buffer, self.index as usize);
    }

    /// Moves the cursor one character left, unless at the start.
    pub fn move_index_left(&mut self)
        ensures
            final(self).buffer@ == old(self).buffer@,
            final(self).index == if old(self).index == 0 { 0 } else { (old(self).index - 1) as u8 },
    {
        if self.index == 0 {
            return;
        }
        self.index = self.index - 1;
    }

    /// Moves the cursor one character right, unless at the end of the line.
    pub fn move_index_right(&mut self)
        requires
            old(self).wf(),
        ensures
            final(self).wf(),
            final(self).buffer@ == old(self).buffer@,
            final(self).index == if old(self).index >= MAX_LINE || old(self).index + 1 > old(self).buffer@.len() {
                old(self).index
            } else {
                (old(self).index + 1) as u8
            },
    {
        let len = ascii_len(&self.buffer);
        if self.index as usize >= MAX_LINE || self.index as usize + 1 > len {
            return;
        }
        self.index = self.index + 1;
    }

    /// Takes the line, leaving it empty with the cursor at the start.
    pub fn send_buffer(&mut self) -> (r: String)
        ensures
            r@ == old(self).buffer@,
            final(self).buffer@.len() == 0,
            final(self).index == 0,
    {
        let mut input = String::new();
        std::mem::swap(&mut input, &mut self.buffer);
        self.index = 0;
        input
    }
}

} // verus!
