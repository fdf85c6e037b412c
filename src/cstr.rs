use vstd::prelude::*;

verus! {

/// Index of the first zero byte of `s` at or after `i`, or `s.len()` when
/// there is none.
pub open spec fn first_zero_from(s: Seq<u8>, i: int) -> int
    decreases s.len() - i,
{
    if i < 0 || i >= s.len() {
        s.len() as int
    } else if s[i] == 0 {
        i
    } else {
        first_zero_from(s, i + 1)
    }
}

/// Length of the terminated string held in `s`: the bytes before the first
/// zero byte, or all of `s` when it holds no zero byte.
pub open spec fn c_len(s: Seq<u8>) -> int {
    first_zero_from(s, 0)
}

/// The bytes of the terminated string held in `s`, without the terminator.
pub open spec fn c_str(s: Seq<u8>) -> Seq<u8> {
    s.take(c_len(s))
}

/// `s` holds a zero byte: it is a properly terminated string.
pub open spec fn is_terminated(s: Seq<u8>) -> bool {
    exists|i: int| 0 <= i < s.len() && s[i] == 0
}

/// `n` is the length of the string held in `s`: no zero byte before `n`,
/// and at `n` either a zero byte or the end of `s`.
pub open spec fn is_c_len(s: Seq<u8>, n: int) -> bool {
    &&& 0 <= n <= s.len()
    &&& forall|j: int| 0 <= j < n ==> s[j] != 0
    &&& (n == s.len() || s[n] == 0)
}

proof fn lemma_first_zero_from(s: Seq<u8>, i: int, n: int)
    requires
        0 <= i <= n,
        is_c_len(s, n),
    ensures
        first_zero_from(s, i) == n,
    decreases n - i,
{
    if i < n {
        lemma_first_zero_from(s, i + 1, n);
    }
}

/// `c_len` is the one length that `is_c_len` describes.
pub proof fn lemma_c_len(s: Seq<u8>, n: int)
    ensures
        is_c_len(s, n) <==> c_len(s) == n,
{
    lemma_c_len_holds(s);
    if is_c_len(s, n) {
        lemma_first_zero_from(s, 0, n);
    }
}

proof fn lemma_c_len_from(s: Seq<u8>, i: int)
    requires
        0 <= i <= s.len(),
        forall|j: int| 0 <= j < i ==> s[j] != 0,
    ensures
        is_c_len(s, first_zero_from(s, i)),
    decreases s.len() - i,
{
    if i < s.len() && s[i] != 0 {
        lemma_c_len_from(s, i + 1);
    }
}

/// The length of every byte sequence meets `is_c_len`.
pub proof fn lemma_c_len_holds(s: Seq<u8>)
    ensures
        is_c_len(s, c_len(s)),
{
    lemma_c_len_from(s, 0);
}

/// A terminated string's length stops short of the end of its buffer.
pub proof fn lemma_terminated_len(s: Seq<u8>)
    requires
        is_terminated(s),
    ensures
        0 <= c_len(s) < s.len(),
        s[c_len(s)] == 0,
{
    lemma_c_len_holds(s);
}

/// Length of the terminated string held in `s`: scans for the first zero
/// byte and stops at the end of `s` if there is none.
pub fn cstr_len(s: &[u8]) -> (r: usize)
    ensures
        r == c_len(s@),
{
    let mut i: usize = 0;
    while i < s.len() && s[i] != 0
        invariant
            0 <= i <= s@.len(),
            forall|j: int| 0 <= j < i ==> s@[j] != 0,
        decreases s@.len() - i,
    {
        i = i + 1;
    }
    proof {
        lemma_c_len(s@, i as int);
    }
    i
}

/// Compares two terminated strings byte by byte: true exactly when their
/// bytes up to and including the terminator agree. Stops at the first
/// differing byte.
pub fn matchpcchar(a: &[u8], b: &[u8]) -> (r: bool)
    requires
        is_terminated(a@),
        is_terminated(b@),
    ensures
        r == (c_str(a@) == c_str(b@)),
        r == (a@.take(c_len(a@) + 1) == b@.take(c_len(b@) + 1)),
{
    proof {
        lemma_terminated_len(a@);
        lemma_terminated_len(b@);
        lemma_c_len_holds(a@);
        lemma_c_len_holds(b@);
    }
    let mut i: usize = 0;
    loop
        invariant
            0 <= i <= c_len(a@),
            i <= c_len(b@),
            c_len(a@) < a@.len(),
            c_len(b@) < b@.len(),
            is_c_len(a@, c_len(a@)),
            is_c_len(b@, c_len(b@)),
            forall|j: int| 0 <= j < i ==> a@[j] == b@[j],
        decreases c_len(a@) - i,
    {
        let ca = a[i];
        let cb = b[i];
        if ca != cb {
            proof {
                assert(a@.take(c_len(a@) + 1)[i as int] != b@.take(c_len(b@) + 1)[i as int]);
                if c_len(a@) > i && c_len(b@) > i {
                    assert(c_str(a@)[i as int] != c_str(b@)[i as int]);
                } else {
                    assert(c_str(a@).len() != c_str(b@).len());
                }
            }
            return false;
        }
        if ca == 0 {
            assert(c_str(a@) =~= c_str(b@));
            assert(a@.take(c_len(a@) + 1) =~= b@.take(c_len(b@) + 1));
            return true;
        }
        i = i + 1;
    }
}

/// Copies `input` into `output` and writes a zero byte right after it.
///
/// Succeeds exactly when `output` has room for the bytes and the terminator;
/// otherwise reports an error and leaves `output` untouched. The terminator is
/// written at offset `input.len()` even where `input` already ends in a zero
/// byte.
pub fn ensure_null_terminated(input: &[u8], output: &mut [u8]) -> (r: Result<(), ()>)
    ensures
        r is Err <==> old(output)@.len() < input@.len() + 1,
        final(output)@.len() == old(output)@.len(),
        r is Err ==> final(output)@ == old(output)@,
        r is Ok ==> final(output)@.take(input@.len() as int) == input@,
        r is Ok ==> final(output)@[input@.len() as int] == 0,
        r is Ok ==> final(output)@ == input@ + seq![0u8] + old(output)@.skip(
            input@.len() + 1 as int,
        ),
{
    let n = input.len();
    if output.len() < 1 || output.len() - 1 < n {
        return Err(());
    }
    let mut i: usize = 0;
    while i < n
        invariant
            n == input@.len(),
            n + 1 <= output@.len(),
            output@.len() == old(output)@.len(),
            0 <= i <= n,
            forall|j: int| 0 <= j < i ==> output@[j] == input@[j],
            forall|j: int| i <= j < output@.len() ==> output@[j] == old(output)@[j],
        decreases n - i,
    {
        output[i] = input[i];
        i = i + 1;
    }
    output[n] = 0;
    assert(output@ =~= input@ + seq![0u8] + old(output)@.skip(n + 1 as int));
    assert(output@.take(n as int) =~= input@);
    Ok(())
}

} // verus!
