//! Splitting text into the pieces that are synthesized one after another.
//!
//! Text is read character by character. A piece ends after a sentence mark (`.`, `!`, `?`
//! or a line break), or after a clause mark (`,`, `;`, `:`) once the piece holds more than
//! 80 bytes. A piece is synthesized trimmed, and only when something is left after
//! trimming; when its synthesis fails, the piece is kept and grows into the next one.
use vstd::prelude::*;

use crate::text::{push_char, trim, trim_str};

verus! {

broadcast use vstd::string::group_string_axioms;

/// Byte length past which a clause mark ends a piece.
pub const SOFT_SPLIT_BYTES: usize = 80;

/// Marks that end a sentence.
pub open spec fn is_hard_boundary(c: char) -> bool {
    c == '.' || c == '!' || c == '?' || c == '\n'
}

/// Marks that end a clause.
pub open spec fn is_soft_boundary(c: char) -> bool {
    c == ',' || c == ';' || c == ':'
}

/// Bytes that `c` takes in UTF-8 (`char::len_utf8`).
pub open spec fn char_width(c: char) -> int {
    let u = c as u32;
    if u < 0x80 {
        1
    } else if u < 0x800 {
        2
    } else if u < 0x10000 {
        3
    } else {
        4
    }
}

/// Bytes that `s` takes in UTF-8 (`str::len`).
pub open spec fn utf8_len(s: Seq<char>) -> int
    decreases s.len(),
{
    if s.len() == 0 {
        0
    } else {
        utf8_len(s.drop_last()) + char_width(s.last())
    }
}

/// Whether the piece `piece`, whose last character is `c`, ends there.
pub open spec fn ends_piece(c: char, piece: Seq<char>) -> bool {
    is_hard_boundary(c) || (is_soft_boundary(c) && utf8_len(piece) > SOFT_SPLIT_BYTES)
}

/// Whether `piece`, just grown by `c`, goes to synthesis.
pub open spec fn emits(c: char, piece: Seq<char>) -> bool {
    ends_piece(c, piece) && trim(piece).len() > 0
}

/// The pieces that reading `text` hands to synthesis, starting from the piece `current`,
/// when every synthesis succeeds, and the piece left at the end.
pub open spec fn feed(current: Seq<char>, text: Seq<char>) -> (Seq<Seq<char>>, Seq<char>)
    decreases text.len(),
{
    if text.len() == 0 {
        (Seq::empty(), current)
    } else {
        let grown = current.push(text[0]);
        let (done, rest) = if emits(text[0], grown) {
            (seq![grown], Seq::<char>::empty())
        } else {
            (Seq::empty(), grown)
        };
        let (more, left) = feed(rest, text.drop_first());
        (done + more, left)
    }
}

/// The pieces one after another.
pub open spec fn flatten(pieces: Seq<Seq<char>>) -> Seq<char>
    decreases pieces.len(),
{
    if pieces.len() == 0 {
        Seq::empty()
    } else {
        pieces[0] + flatten(pieces.drop_first())
    }
}

/// When every synthesis succeeds nothing of the text is lost or reordered: the pieces
/// handed to synthesis, followed by the piece left at the end, are the text read; and every
/// such piece ends in a boundary mark and holds more than white space.
pub proof fn lemma_feed_covers_text(current: Seq<char>, text: Seq<char>)
    ensures
        flatten(feed(current, text).0) + feed(current, text).1 == current + text,
        forall|i: int|
            0 <= i < feed(current, text).0.len() ==> {
                let p = #[trigger] feed(current, text).0[i];
                &&& p.len() > 0
                &&& emits(p.last(), p)
            },
    decreases text.len(),
{
    if text.len() > 0 {
        let grown = current.push(text[0]);
        if emits(text[0], grown) {
            lemma_feed_covers_text(Seq::empty(), text.drop_first());
            let (more, left) = feed(Seq::empty(), text.drop_first());
            assert((seq![grown] + more).drop_first() =~= more);
            assert(flatten(seq![grown] + more) == grown + flatten(more));
            assert(Seq::<char>::empty() + text.drop_first() =~= text.drop_first());
            assert(grown + flatten(more) + left =~= grown + (flatten(more) + left));
            assert(current + text =~= grown + text.drop_first());
            assert forall|i: int| 0 <= i < (seq![grown] + more).len() implies {
                let p = #[trigger] (seq![grown] + more)[i];
                &&& p.len() > 0
                &&& emits(p.last(), p)
            } by {
                if i == 0 {
                    assert(grown.last() == text[0]);
                } else {
                    assert((seq![grown] + more)[i] == more[i - 1]);
                }
            }
        } else {
            lemma_feed_covers_text(grown, text.drop_first());
            let (more, left) = feed(grown, text.drop_first());
            assert(Seq::<Seq<char>>::empty() + more =~= more);
            assert(current + text =~= grown + text.drop_first());
        }
    } else {
        assert(current + text =~= current);
    }
}

/// Gathers characters into pieces for synthesis.
pub struct TextSegmenter {
    current: String,
    byte_len: usize,
}

impl View for TextSegmenter {
    type V = Seq<char>;

    closed spec fn view(&self) -> Seq<char> {
        self.current@
    }
}

impl TextSegmenter {
    /// The byte count kept beside the piece (saturating at `usize::MAX`) is right.
    pub closed spec fn wf(&self) -> bool {
        self.byte_len == if utf8_len(self.current@) < usize::MAX {
            utf8_len(self.current@)
        } else {
            usize::MAX as int
        }
    }

    /// A segmenter with an empty piece.
    pub fn new() -> (s: Self)
        ensures
            s@ == Seq::<char>::empty(),
            s.wf(),
    {
        TextSegmenter { current: String::new(), byte_len: 0 }
    }

    /// Adds `c` to the piece; returns the trimmed piece when it is to be synthesized now.
    pub fn push_char(&mut self, c: char) -> (piece: Option<String>)
        requires
            old(self).wf(),
        ensures
            final(self).wf(),
            final(self)@ == old(self)@.push(c),
            opt_chars(piece) == if emits(c, old(self)@.push(c)) {
                Some(trim(old(self)@.push(c)))
            } else {
                None
            },
    {
        let ghost before = self.current@;
        push_char(&mut self.current, c);
        assert(self.current@.drop_last() =~= before);
        let u = c as u32;
        let width: usize = if u < 0x80 {
            1
        } else if u < 0x800 {
            2
        } else if u < 0x10000 {
            3
        } else {
            4
        };
        self.byte_len = self.byte_len.saturating_add(width);
        let hard = c == '.' || c == '!' || c == '?' || c == '\n';
        let soft = c == ',' || c == ';' || c == ':';
        if hard || (soft && self.byte_len > SOFT_SPLIT_BYTES) {
            let segment = trim_str(self.current.as_str());
            if !segment.as_str().is_empty() {
                return Some(segment);
            }
        }
        None
    }

    /// The piece was synthesized: start a new one.
    pub fn piece_done(&mut self)
        ensures
            final(self)@ == Seq::<char>::empty(),
            final(self).wf(),
    {
        self.current = String::new();
        self.byte_len = 0;
    }

    /// The trimmed piece left at the end of the text, when there is something in it.
    pub fn remainder(&self) -> (piece: Option<String>)
        ensures
            opt_chars(piece) == if trim(self@).len() > 0 {
                Some(trim(self@))
            } else {
                None
            },
    {
        let segment = trim_str(self.current.as_str());
        if segment.as_str().is_empty() {
            None
        } else {
            Some(segment)
        }
    }
}

/// The text of an optional string.
pub open spec fn opt_chars(o: Option<String>) -> Option<Seq<char>> {
    match o {
        Some(s) => Some(s@),
        None => None,
    }
}

/// The ONNX execution provider for synthesis: `"coreml"` or `"cuda"` when the GPU is used
/// (the first on macOS), else `"cpu"`.
pub fn onnx_provider(use_gpu: bool, on_macos: bool) -> (provider: &'static str)
    ensures
        provider@ == if use_gpu {
            if on_macos {
                "coreml"@
            } else {
                "cuda"@
            }
        } else {
            "cpu"@
        },
{
    if use_gpu {
        if on_macos {
            "coreml"
        } else {
            "cuda"
        }
    } else {
        "cpu"
    }
}


/// Which characters end a piece: a full stop, `!`, `?` or a line break always; a comma,
/// semicolon or colon once the piece holds more than 80 bytes; nothing else ever.
pub proof fn lemma_piece_ends(c: char, piece: Seq<char>)
    ensures
        (c == '.' || c == '!' || c == '?' || c == '\n') ==> ends_piece(c, piece),
        (c == ',' || c == ';' || c == ':') ==> (ends_piece(c, piece) <==> utf8_len(piece) > 80),
        !(c == '.' || c == '!' || c == '?' || c == '\n' || c == ',' || c == ';' || c == ':')
            ==> !ends_piece(c, piece),
{
}

/// A line break, full stop, `!` or `?` hands the piece to synthesis whenever it holds more
/// than white space: pushing such a mark after `p` gives the trimmed `p` with the mark.
pub proof fn lemma_sentence_mark_emits(p: Seq<char>, c: char)
    requires
        c == '.' || c == '!' || c == '?' || c == '\n',
        trim(p.push(c)).len() > 0,
    ensures
        emits(c, p.push(c)),
{
}

} // verus!
