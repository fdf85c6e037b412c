use vstd::prelude::*;

verus! {

/// A byte that ends a word: the terminator or a space.
pub open spec fn is_stop(b: u8) -> bool {
    b == 0 || b == 32
}

/// End of the word that starts at offset 0 of `s`, scanning from `i`: the
/// first stop byte, the end of `s`, or offset 63, whichever comes first.
pub open spec fn word_end_from(s: Seq<u8>, i: int) -> int
    decreases 63 - i,
{
    if i < 0 || i >= 63 || i >= s.len() || is_stop(s[i]) {
        i
    } else {
        word_end_from(s, i + 1)
    }
}

/// Number of bytes the tokenizer takes as the first word of `s`.
pub open spec fn word_len(s: Seq<u8>) -> int {
    word_end_from(s, 0)
}

/// The first word of `s`, cut at 63 bytes.
pub open spec fn first_word(s: Seq<u8>) -> Seq<u8> {
    s.take(word_len(s))
}

/// Offset in `s` at which the unread input starts after the first word: one
/// space after the word is skipped, nothing else.
pub open spec fn rest_offset(s: Seq<u8>) -> int {
    let k = word_len(s);
    if k < s.len() && s[k] == 32 {
        k + 1
    } else {
        k
    }
}

/// `k` is where the first word of `s` ends.
pub open spec fn is_word_len(s: Seq<u8>, k: int) -> bool {
    &&& 0 <= k <= 63
    &&& k <= s.len()
    &&& forall|j: int| 0 <= j < k ==> !is_stop(s[j])
    &&& (k == 63 || k == s.len() || is_stop(s[k]))
}

proof fn lemma_word_end_from(s: Seq<u8>, i: int, k: int)
    requires
        0 <= i <= k,
        is_word_len(s, k),
    ensures
        word_end_from(s, i) == k,
    decreases k - i,
{
    if i < k {
        lemma_word_end_from(s, i + 1, k);
    }
}

proof fn lemma_word_end_holds(s: Seq<u8>, i: int)
    requires
        0 <= i <= 63,
        i <= s.len(),
        forall|j: int| 0 <= j < i ==> !is_stop(s[j]),
    ensures
        is_word_len(s, word_end_from(s, i)),
    decreases 63 - i,
{
    if i < 63 && i < s.len() && !is_stop(s[i]) {
        lemma_word_end_holds(s, i + 1);
    }
}

/// `word_len` is the one end that `is_word_len` describes.
pub proof fn lemma_word_len(s: Seq<u8>, k: int)
    ensures
        is_word_len(s, word_len(s)),
        is_word_len(s, k) <==> word_len(s) == k,
{
    lemma_word_end_holds(s, 0);
    if is_word_len(s, k) {
        lemma_word_end_from(s, 0, k);
    }
}

/// The words that repeated tokenizing reads from `s`, stopping at the first
/// empty word.
pub open spec fn split_words(s: Seq<u8>) -> Seq<Seq<u8>>
    decreases s.len(),
    via split_words_decreases
{
    if word_len(s) == 0 {
        seq![]
    } else {
        seq![first_word(s)] + split_words(s.skip(rest_offset(s)))
    }
}

#[via_fn]
proof fn split_words_decreases(s: Seq<u8>) {
    lemma_word_len(s, 0);
}

/// Words joined with single spaces.
pub open spec fn join_words(ws: Seq<Seq<u8>>) -> Seq<u8>
    decreases ws.len(),
{
    if ws.len() == 0 {
        seq![]
    } else if ws.len() == 1 {
        ws[0]
    } else {
        ws[0] + seq![32u8] + join_words(ws.drop_first())
    }
}

/// A word the tokenizer hands back whole: not empty, at most 63 bytes, no
/// space and no terminator.
pub open spec fn is_plain_word(w: Seq<u8>) -> bool {
    &&& 0 < w.len() <= 63
    &&& forall|j: int| 0 <= j < w.len() ==> !is_stop(w[j])
}

/// Tokenizing words joined by single spaces, terminated, step after step
/// until the word comes back empty, gives back exactly those words in order.
pub proof fn lemma_split_join(ws: Seq<Seq<u8>>)
    requires
        forall|i: int| 0 <= i < ws.len() ==> is_plain_word(#[trigger] ws[i]),
    ensures
        split_words(join_words(ws) + seq![0u8]) == ws,
    decreases ws.len(),
{
    let s = join_words(ws) + seq![0u8];
    if ws.len() == 0 {
        assert(s =~= seq![0u8]);
        lemma_word_len(s, 0);
        assert(split_words(s) =~= ws);
    } else {
        let w = ws[0];
        let k = w.len() as int;
        assert(is_plain_word(ws[0]));
        let tail = if ws.len() == 1 {
            seq![0u8]
        } else {
            seq![32u8] + join_words(ws.drop_first()) + seq![0u8]
        };
        assert(s =~= w + tail);
        assert(is_word_len(s, k));
        lemma_word_len(s, k);
        assert(first_word(s) =~= w);
        if ws.len() == 1 {
            assert(rest_offset(s) == k);
            assert(s.skip(k) =~= seq![0u8]);
            lemma_word_len(s.skip(k), 0);
            assert(split_words(s.skip(k)) == Seq::<Seq<u8>>::empty());
            assert(split_words(s) == seq![w] + split_words(s.skip(k)));
            assert(split_words(s) =~= ws);
        } else {
            assert(rest_offset(s) == k + 1);
            assert(s.skip(k + 1) =~= join_words(ws.drop_first()) + seq![0u8]);
            assert forall|i: int| 0 <= i < ws.drop_first().len() implies is_plain_word(
                #[trigger] ws.drop_first()[i],
            ) by {
                assert(ws.drop_first()[i] == ws[i + 1]);
            }
            lemma_split_join(ws.drop_first());
            assert(split_words(s) =~= ws);
        }
    }
}

/// The result of one tokenizing step: the word, terminated, in a 64-byte
/// buffer, and the offset in the input at which the unread part starts.
#[derive(Clone, Copy)]
pub struct Token {
    pub word: [u8; 64],
    pub rest: usize,
}

/// Reads the first word of `input`: copies the bytes before the first space
/// or terminator, at most 63 of them, into a fresh 64-byte buffer, terminates
/// it, and skips one space after it. The end of `input` counts as a
/// terminator.
pub fn splitft(input: &[u8]) -> (r: Token)
    ensures
        r.word@ == first_word(input@) + Seq::new((64 - word_len(input@)) as nat, |_j: int| 0u8),
        r.rest == rest_offset(input@),
        word_len(input@) <= 63,
        r.word@[word_len(input@)] == 0,
        r.rest <= input@.len(),
        (input@.len() >= 63 && forall|j: int| 0 <= j < 63 ==> !is_stop(input@[j])) ==> (
        r.word@.take(63) == input@.take(63) && r.word@[63] == 0),
{
    let mut word = [0u8; 64];
    let mut i: usize = 0;
    while i < input.len() && input[i] != 0 && input[i] != 32 && i < 63
        invariant
            0 <= i <= 63,
            i <= input@.len(),
            word@.len() == 64,
            forall|j: int| 0 <= j < i ==> !is_stop(#[trigger] input@[j]),
            forall|j: int| 0 <= j < i ==> word@[j] == input@[j],
            forall|j: int| i <= j < 64 ==> word@[j] == 0,
        decreases 63 - i,
    {
        word[i] = input[i];
        i = i + 1;
    }
    word[i] = 0;
    proof {
        lemma_word_len(input@, i as int);
    }
    let rest = if i < input.len() && input[i] == 32 {
        i + 1
    } else {
        i
    };
    assert(word@ =~= first_word(input@) + Seq::new((64 - word_len(input@)) as nat, |_j: int| 0u8));
    proof {
        if input@.len() >= 63 && forall|j: int| 0 <= j < 63 ==> !is_stop(input@[j]) {
            assert(is_word_len(input@, 63));
            assert(word@.take(63) =~= input@.take(63));
        }
    }
    Token { word, rest }
}

} // verus!
