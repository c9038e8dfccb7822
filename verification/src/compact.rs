use std::collections::TryReserveError;
use vstd::prelude::*;
use vstd::utf8::encode_utf8;

verus! {

/// Number of bytes in the UTF-8 encoding of `s`.
pub open spec fn byte_len(s: Seq<char>) -> nat {
    encode_utf8(s).len()
}

/// The bytes of two strings one after the other are the bytes of each.
pub broadcast proof fn lemma_byte_len_concat(s: Seq<char>, t: Seq<char>)
    ensures
        #[trigger] byte_len(s + t) == byte_len(s) + byte_len(t),
    decreases s.len(),
{
    if s.len() == 0 {
        assert(s + t =~= t);
    } else {
        lemma_byte_len_concat(s.drop_first(), t);
        assert((s + t).drop_first() =~= s.drop_first() + t);
        assert((s + t)[0] == s[0]);
    }
}

/// One character takes one to four bytes, and an ASCII character one.
pub broadcast proof fn lemma_byte_len_char(c: char)
    ensures
        1 <= #[trigger] byte_len(seq![c]) <= 4,
        (c as u32) < 0x80 ==> byte_len(seq![c]) == 1,
{
    reveal_with_fuel(encode_utf8, 2);
    assert(seq![c].drop_first() =~= Seq::<char>::empty());
    assert(seq![c][0] == c);
    assert(encode_utf8(seq![c]) =~= vstd::utf8::encode_scalar(c as u32));
    assert(byte_len(seq![c]) == vstd::utf8::encode_scalar(c as u32).len());
}

/// Appending a character adds the bytes of that character.
pub broadcast proof fn lemma_byte_len_push(s: Seq<char>, c: char)
    ensures
        #[trigger] byte_len(s.push(c)) == byte_len(s) + byte_len(seq![c]),
{
    assert(s.push(c) =~= s + seq![c]);
    lemma_byte_len_concat(s, seq![c]);
}

/// Keeping some of the characters of a string never takes more bytes.
pub proof fn lemma_byte_len_kept(s: Seq<char>, keep: Seq<bool>)
    ensures
        byte_len(kept(s, keep)) <= byte_len(s),
    decreases s.len(),
{
    if s.len() > 0 {
        lemma_byte_len_kept(s.drop_last(), keep.take(s.len() - 1));
        assert(s =~= s.drop_last().push(s.last()));
        lemma_byte_len_push(s.drop_last(), s.last());
        lemma_byte_len_push(kept(s.drop_last(), keep.take(s.len() - 1)), s.last());
    }
}

/// A string takes at most four bytes per character.
pub broadcast proof fn lemma_byte_len_at_most_four_per_char(s: Seq<char>)
    ensures
        #[trigger] byte_len(s) <= 4 * s.len(),
    decreases s.len(),
{
    if s.len() > 0 {
        lemma_byte_len_at_most_four_per_char(s.drop_last());
        assert(s =~= s.drop_last().push(s.last()));
        lemma_byte_len_push(s.drop_last(), s.last());
        lemma_byte_len_char(s.last());
    }
}

pub broadcast group group_byte_len {
    lemma_byte_len_at_most_four_per_char,
    lemma_byte_len_concat,
    lemma_byte_len_char,
    lemma_byte_len_push,
}

/// The characters of `s` at whose position `keep` holds, in their order.
pub open spec fn kept(s: Seq<char>, keep: Seq<bool>) -> Seq<char>
    decreases s.len(),
{
    if s.len() == 0 {
        Seq::empty()
    } else {
        let prev = kept(s.drop_last(), keep.take(s.len() - 1));
        if keep[s.len() - 1] {
            prev.push(s.last())
        } else {
            prev
        }
    }
}

/// `String::len` returns the number of bytes of the UTF-8 encoding of the
/// string's characters. A `String` never holds more than `isize::MAX` bytes
/// (its buffer is a `Vec<u8>`, which never allocates more than that).
pub assume_specification[ String::len ](s: &String) -> (r: usize)
    ensures
        r as nat == byte_len(s@),
        r <= isize::MAX,
;

/// Whether a `String` that grows by appending can come to hold `s`: when its
/// buffer is full it is reallocated to at most twice the bytes it must then
/// hold, and no buffer may exceed `isize::MAX` bytes.
pub open spec fn can_grow_to(s: Seq<char>) -> bool {
    2 * byte_len(s) <= isize::MAX
}

/// `String::push` appends one character at the end and changes nothing else.
/// It panics when the capacity it grows to would exceed `isize::MAX` bytes;
/// `requires` leaves out every input on which it could.
pub assume_specification[ String::push ](s: &mut String, ch: char)
    requires
        can_grow_to(old(s)@.push(ch)),
    ensures
        final(s)@ == old(s)@.push(ch),
;

/// `String::try_reserve` may or may not obtain capacity (that depends on the
/// allocator and on the capacity already held); either way the characters of
/// the string are left as they were. Asked for no more bytes, it finds the
/// capacity already sufficient, does nothing and succeeds: it fails only on
/// a capacity overflow or an allocator failure. Otherwise which of `Ok` and
/// `Err` comes back is left unsaid.
pub assume_specification[ String::try_reserve ](s: &mut String, additional: usize) -> (r: Result<
    (),
    TryReserveError,
>)
    ensures
        final(s)@ == old(s)@,
        additional == 0 ==> r is Ok,
;

/// The error of a reservation that cannot be made: the requested capacity
/// does not fit in a `usize`, or the allocator refused it.
#[derive(Debug, Clone, Copy, PartialEq, Eq)]
pub struct ReserveError;

/// An owned, growable UTF-8 string.
pub struct CompactString {
    text: String,
}

impl View for CompactString {
    type V = Seq<char>;

    closed spec fn view(&self) -> Seq<char> {
        self.text@
    }
}

impl CompactString {
    /// A string holding a copy of `text`.
    pub fn new(text: &str) -> (r: CompactString)
        ensures
            r@ == text@,
    {
        CompactString { text: text.to_owned() }
    }

    /// The length of the string in bytes.
    pub fn len(&self) -> (r: usize)
        ensures
            r as nat == byte_len(self@),
    {
        self.text.len()
    }

    /// The characters of the string.
    pub fn as_str(&self) -> (r: &str)
        ensures
            r@ == self@,
    {
        self.text.as_str()
    }

    /// Asks for room for at least `additional` more bytes.
    ///
    /// Fails with `ReserveError` whenever `len() + additional` does not fit
    /// in a `usize`; succeeds when no more bytes are asked for; otherwise the
    /// allocator decides. The characters of the string never change.
    pub fn try_reserve(&mut self, additional: usize) -> (r: Result<(), ReserveError>)
        ensures
            final(self)@ == old(self)@,
            byte_len(old(self)@) + additional > usize::MAX ==> r is Err,
            additional == 0 ==> r is Ok,
    {
        let len: usize = self.len();
        match len.checked_add(additional) {
            None => Err(ReserveError),
            Some(_) => match self.text.try_reserve(additional) {
                Ok(()) => Ok(()),
                Err(_) => Err(ReserveError),
            },
        }
    }

    /// Keeps the characters for which `f` returns `true`, in their order,
    /// and drops the others.
    ///
    /// The string is rebuilt as it goes; the loop's invariant is that after
    /// `f` has been asked about the first `i` characters, the string holds
    /// exactly those of them that were kept. A panic in `f` therefore leaves
    /// no stale characters behind, but that follows from how the body is
    /// written and is not part of this contract, which speaks of returns only.
    pub fn retain(&mut self, f: impl Fn(char) -> bool)
        requires
            forall|c: char| f.requires((c,)),
            can_grow_to(old(self)@),
        ensures
            exists|keep: Seq<bool>|
                {
                    &&& keep.len() == old(self)@.len()
                    &&& forall|i: int|
                        0 <= i < keep.len() ==> f.ensures((old(self)@[i],), #[trigger] keep[i])
                    &&& final(self)@ == kept(old(self)@, keep)
                },
    {
        let mut source = String::new();
        core::mem::swap(&mut source, &mut self.text);
        let ghost src = source@;
        let ghost mut keep: Seq<bool> = Seq::empty();
        for c in it: source.chars()
            invariant
                forall|c: char| f.requires((c,)),
                can_grow_to(src),
                it.seq() == src,
                keep.len() == it.index(),
                forall|i: int| 0 <= i < keep.len() ==> f.ensures((src[i],), #[trigger] keep[i]),
                self.text@ == kept(src.take(it.index() as int), keep),
        {
            let ghost i: int = it.index() as int;
            let b = f(c);
            proof {
                assert(src.take(i + 1).drop_last() =~= src.take(i));
                assert(keep.push(b).take(i) =~= keep);
                lemma_byte_len_kept(src.take(i + 1), keep.push(b));
                assert(src =~= src.take(i + 1) + src.skip(i + 1));
                lemma_byte_len_concat(src.take(i + 1), src.skip(i + 1));
            }
            if b {
                self.text.push(c);
            }
            proof {
                keep = keep.push(b);
            }
        }
        proof {
            assert(src.take(src.len() as int) =~= src);
            assert(src == old(self)@);
            assert(keep.len() == src.len());
            assert(self.text@ == kept(src, keep));
        }
    }
}

} // verus!
