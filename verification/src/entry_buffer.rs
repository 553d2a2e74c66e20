//! The text held by the launcher's search entry, edited by character position.
use vstd::prelude::*;
use vstd::string::*;

verus! {

/// Character index that a buffer position stands for: positions `1..=len`
/// are kept, anything else falls back to the start of the text.
pub open spec fn char_index(s: Seq<char>, n: int) -> int {
    if 1 <= n <= s.len() {
        n
    } else {
        0
    }
}

/// The text after `chars` is inserted at character position `position`.
/// A lone carriage return is not inserted.
pub open spec fn inserted_spec(s: Seq<char>, position: int, chars: Seq<char>) -> Seq<char> {
    if chars == seq!['\r'] {
        s
    } else {
        let p = char_index(s, position);
        s.take(p) + chars + s.skip(p)
    }
}

/// The text after deleting `n_chars` characters (all of them when `None`)
/// after character position `position`.
pub open spec fn deleted_spec(s: Seq<char>, position: int, n_chars: Option<u32>) -> Seq<char> {
    let p = char_index(s, position);
    match n_chars {
        None => s.take(p),
        Some(n) => {
            let rest = s.skip(p);
            s.take(p) + rest.skip(char_index(rest, n as int))
        },
    }
}

/// Contents of the search entry.
pub struct SearchEntryBuffer {
    pub text: String,
}

impl SearchEntryBuffer {
    /// An empty buffer.
    pub fn new() -> (buffer: Self)
        ensures
            buffer.text@ == Seq::<char>::empty(),
    {
        SearchEntryBuffer { text: String::new() }
    }

    /// Inserts `chars` at character position `position`.
    pub fn inserted_text(&mut self, position: u32, chars: &str)
        ensures
            final(self).text@ == inserted_spec(old(self).text@, position as int, chars@),
    {
        if chars.unicode_len() == 1 && chars.get_char(0) == '\r' {
            assert(chars@ =~= seq!['\r']);
            return;
        }
        let len = self.text.as_str().unicode_len();
        let p: usize = if 1 <= position as usize && position as usize <= len {
            position as usize
        } else {
            0
        };
        let mut out = String::new();
        out.append(self.text.as_str().substring_char(0, p));
        out.append(chars);
        out.append(self.text.as_str().substring_char(p, len));
        proof {
            assert(self.text@.take(p as int) =~= self.text@.subrange(0, p as int));
            assert(self.text@.skip(p as int) =~= self.text@.subrange(p as int, len as int));
        }
        self.text = out;
    }

    /// Deletes `n_chars` characters after character position `position`, or
    /// everything after it when `n_chars` is `None`.
    pub fn deleted_text(&mut self, position: u32, n_chars: Option<u32>)
        ensures
            final(self).text@ == deleted_spec(old(self).text@, position as int, n_chars),
    {
        let len = self.text.as_str().unicode_len();
        let p: usize = if 1 <= position as usize && position as usize <= len {
            position as usize
        } else {
            0
        };
        let mut out = String::new();
        out.append(self.text.as_str().substring_char(0, p));
        match n_chars {
            None => {
                assert(self.text@.take(p as int) =~= self.text@.subrange(0, p as int));
            },
            Some(n) => {
                let rest = len - p;
                let e: usize = if 1 <= n as usize && n as usize <= rest {
                    n as usize
                } else {
                    0
                };
                out.append(self.text.as_str().substring_char(p + e, len));
                proof {
                    let s = self.text@;
                    assert(s.take(p as int) =~= s.subrange(0, p as int));
                    assert(s.skip(p as int).skip(e as int) =~= s.subrange(p + e, len as int));
                }
            },
        }
        self.text = out;
    }

    /// Number of characters in the buffer.
    pub fn length(&self) -> (n: u32)
        requires
            self.text@.len() <= u32::MAX,
        ensures
            n == self.text@.len(),
    {
        self.text.as_str().unicode_len() as u32
    }

    /// A copy of the buffer's text.
    pub fn text(&self) -> (s: String)
        ensures
            s@ == self.text@,
    {
        self.text.clone()
    }
}

/// Typing characters and then deleting as many at the same position gives
/// back the text, for a position within the text.
pub proof fn lemma_insert_then_delete(s: Seq<char>, position: int, chars: Seq<char>)
    requires
        0 <= position <= s.len(),
        chars != seq!['\r'],
        chars.len() <= u32::MAX,
    ensures
        deleted_spec(inserted_spec(s, position, chars), position, Some(chars.len() as u32)) == s,
{
    let p = char_index(s, position);
    let t = inserted_spec(s, position, chars);
    assert(t == s.take(p) + chars + s.skip(p));
    assert(char_index(t, position) == p);
    let rest = t.skip(p);
    assert(rest =~= chars + s.skip(p));
    assert(t.take(p) =~= s.take(p));
    if chars.len() == 0 {
        assert(rest.skip(0) =~= rest);
    } else {
        assert(char_index(rest, chars.len() as int) == chars.len());
        assert(rest.skip(chars.len() as int) =~= s.skip(p));
    }
    assert(s.take(p) + s.skip(p) =~= s);
}

/// Inserting characters (other than a lone carriage return) lengthens the
/// text by their number.
pub proof fn lemma_insert_length(s: Seq<char>, position: int, chars: Seq<char>)
    requires
        chars != seq!['\r'],
    ensures
        inserted_spec(s, position, chars).len() == s.len() + chars.len(),
{
}

} // verus!
