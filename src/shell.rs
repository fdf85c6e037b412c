use vstd::prelude::*;
use vstd::slice::slice_subrange;

use crate::cstr::{c_len, ensure_null_terminated, lemma_c_len, lemma_c_len_holds};

verus! {

/// Longest path, in bytes, that fits a 256-byte buffer with its terminator.
pub const PATH_MAX_LEN: usize = 255;

/// Status that a failed directory change reports.
pub const CD_FAILED: i32 = -1;

/// Output and exit status of a command that was run to completion.
#[derive(Clone)]
pub struct ExecResult {
    pub output: Vec<u8>,
    pub status: i32,
}

/// Length of the path that `cd` passes on: the terminated string in `p`, cut
/// at 255 bytes.
pub open spec fn cd_len(p: Seq<u8>) -> int {
    if c_len(p) < 255 {
        c_len(p)
    } else {
        255
    }
}

/// The 256-byte buffer handed to the directory-change call: the path, its
/// terminator, and zeros after it.
pub open spec fn cd_buffer(p: Seq<u8>) -> Seq<u8> {
    p.take(cd_len(p)) + Seq::new((256 - cd_len(p)) as nat, |_j: int| 0u8)
}

/// Prepares a possibly unterminated path for the directory-change call.
///
/// With no path at all the answer is the failure status, and no call is to
/// be made. Otherwise the path is scanned for its terminator, at most 255
/// bytes and never past its end, and copied, terminated, into a 256-byte
/// buffer.
pub fn cd_path(path: Option<&[u8]>) -> (r: Result<[u8; 256], i32>)
    ensures
        path is None <==> r == Err::<[u8; 256], i32>(CD_FAILED),
        path is Some ==> r is Ok && r->Ok_0@ == cd_buffer(path->Some_0@),
{
    let p = match path {
        None => return Err(CD_FAILED),
        Some(p) => p,
    };
    let mut len: usize = 0;
    while len < p.len() && p[len] != 0 && len < PATH_MAX_LEN
        invariant
            0 <= len <= 255,
            len <= p@.len(),
            forall|j: int| 0 <= j < len ==> p@[j] != 0,
        decreases 255 - len,
    {
        len = len + 1;
    }
    proof {
        lemma_c_len_holds(p@);
        if len < 255 {
            lemma_c_len(p@, len as int);
        }
    }
    assert(len == cd_len(p@));
    let mut buffer = [0u8; 256];
    let part = slice_subrange(p, 0, len);
    match ensure_null_terminated(part, &mut buffer) {
        Ok(()) => {
            assert(buffer@ =~= cd_buffer(p@));
            Ok(buffer)
        },
        Err(()) => Err(CD_FAILED),
    }
}

/// The text shown when the working directory cannot be had.
pub open spec fn unknown_dir() -> Seq<u8> {
    seq![60u8, 117, 110, 107, 110, 111, 119, 110, 62]
}

/// What `pwd` shows for the working directory `cwd`: the directory itself
/// when it was had and fits a 256-byte buffer with its terminator, the text
/// "<unknown>" otherwise.
pub fn pwd_text(cwd: Option<&[u8]>) -> (r: Vec<u8>)
    ensures
        r@ == (match cwd {
            Some(d) if d@.len() <= 255 => d@,
            _ => unknown_dir(),
        }),
{
    match cwd {
        Some(d) if d.len() <= PATH_MAX_LEN => {
            let mut out: Vec<u8> = Vec::new();
            let mut i: usize = 0;
            while i < d.len()
                invariant
                    0 <= i <= d@.len(),
                    out@ == d@.take(i as int),
                decreases d@.len() - i,
            {
                out.push(d[i]);
                assert(out@ =~= d@.take(i + 1));
                i = i + 1;
            }
            assert(out@ =~= d@);
            out
        },
        _ => {
            let r = vec![60u8, 117, 110, 107, 110, 111, 119, 110, 62];
            assert(r@ =~= unknown_dir());
            r
        },
    }
}

/// The byte `getch` returns after a one-byte read that reported `n`: the byte
/// read when `n` is positive, zero for no data or an error.
pub fn getch_byte(n: isize, byte: u8) -> (r: u8)
    ensures
        r == (if n <= 0 {
            0u8
        } else {
            byte
        }),
{
    if n <= 0 {
        0
    } else {
        byte
    }
}

} // verus!
