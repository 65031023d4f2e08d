//! The paths that the format-detection fuzz target tries.
use vstd::prelude::*;

verus! {

/// The character that one input byte stands for: by its remainder modulo 10,
/// `.` for 0, `/` for 1, `-` for 2, and otherwise the lower-case letter
/// numbered by the byte modulo 26.
pub open spec fn byte_char(b: u8) -> char {
    if b % 10 == 0 {
        '.'
    } else if b % 10 == 1 {
        '/'
    } else if b % 10 == 2 {
        '-'
    } else {
        (('a' as int) + (b % 26)) as char
    }
}

/// The path for an input: its first 256 bytes, each turned into a character.
pub open spec fn spec_path_from_bytes(input: Seq<u8>) -> Seq<char> {
    let n = if input.len() < 256 {
        input.len() as int
    } else {
        256
    };
    Seq::new(n as nat, |i: int| byte_char(input[i]))
}

/// The path for a fuzzing input.
pub fn path_from_bytes(input: &[u8]) -> (out: String)
    ensures
        out@ == spec_path_from_bytes(input@),
{
    let letters = "abcdefghijklmnopqrstuvwxyz";
    proof {
        reveal_strlit("abcdefghijklmnopqrstuvwxyz");
    }
    let n = if input.len() < 256 {
        input.len()
    } else {
        256
    };
    let mut out = String::new();
    let mut i: usize = 0;
    while i < n
        invariant
            n <= input@.len(),
            n == (if input@.len() < 256 {
                input@.len() as int
            } else {
                256
            }),
            i <= n,
            letters@ == "abcdefghijklmnopqrstuvwxyz"@,
            letters@.len() == 26,
            forall|k: int| 0 <= k < 26 ==> #[trigger] letters@[k] == (('a' as int) + k) as char,
            out@ == Seq::new(i as nat, |j: int| byte_char(input@[j])),
        decreases n - i,
    {
        let b = input[i];
        let ghost before = out@;
        if b % 10 == 0 {
            proof {
                reveal_strlit(".");
            }
            out.append(".");
        } else if b % 10 == 1 {
            proof {
                reveal_strlit("/");
            }
            out.append("/");
        } else if b % 10 == 2 {
            proof {
                reveal_strlit("-");
            }
            out.append("-");
        } else {
            let k = (b % 26) as usize;
            out.append(letters.substring_char(k, k + 1));
            assert(letters@.subrange(k as int, k + 1) =~= seq![letters@[k as int]]);
            assert(letters@[k as int] == byte_char(b));
        }
        assert(out@ =~= before.push(byte_char(b)));
        i = i + 1;
        assert(out@ =~= Seq::new(i as nat, |j: int| byte_char(input@[j])));
    }
    out
}

} // verus!
