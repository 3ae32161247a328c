//! Log trimming: which tail of a log file fits under its size cap.
//!
//! A log is trimmed from the top: the oldest lines go until what remains
//! fits. Given the log's lines, the index computed here marks the longest
//! suffix whose size — each line's UTF-8 bytes plus its newline — stays
//! within the cap. Reading and rewriting the file is the caller's work.

use vstd::prelude::*;
use vstd::string::StringSliceAdditionalSpecFns;
use vstd::utf8::encode_utf8;

verus! {

/// The room a line takes in the log file: its UTF-8 bytes (a count that fits
/// a machine word, as any held line's does) and a newline.
pub open spec fn line_size(l: Seq<char>) -> int {
    (encode_utf8(l).len() as usize) as int + 1
}

/// The room the lines from `from` on take together.
pub open spec fn suffix_size(ls: Seq<Seq<char>>, from: int) -> int
    decreases ls.len() - from
        when 0 <= from
{
    if from >= ls.len() {
        0
    } else {
        line_size(ls[from]) + suffix_size(ls, from + 1)
    }
}

proof fn lemma_suffix_size_mono(ls: Seq<Seq<char>>, a: int, b: int)
    requires
        0 <= a <= b <= ls.len(),
    ensures
        suffix_size(ls, a) >= suffix_size(ls, b),
    decreases b - a,
{
    if a < b {
        lemma_suffix_size_mono(ls, a + 1, b);
    }
}

/// Where the log's kept tail begins: the least index whose suffix fits under
/// `max_size` bytes. Everything before it is trimmed; since every line takes
/// room, no longer suffix fits.
pub fn trim_keep_from(lines: &Vec<String>, max_size: u64) -> (k: usize)
    ensures
        k <= lines@.len(),
        suffix_size(lines.deep_view(), k as int) <= max_size,
        forall|j: int| 0 <= j < k ==> suffix_size(lines.deep_view(), j) > max_size,
{
    let ghost ls = lines.deep_view();
    let n = lines.len();
    let mut k: usize = n;
    let mut total: u128 = 0;
    while k > 0
        invariant
            ls == lines.deep_view(),
            n == ls.len(),
            k <= n,
            total == suffix_size(ls, k as int),
            total <= max_size,
        decreases k,
    {
        let line = lines[k - 1].as_str();
        let sz = line.len() as u128 + 1;
        proof {
            assert(line@ == ls[k - 1]);
            assert(line.spec_bytes() == encode_utf8(line@));
            assert(sz == line_size(ls[k - 1]));
        }
        if total + sz > max_size as u128 {
            proof {
                assert(suffix_size(ls, k - 1) == sz + total);
                assert forall|j: int| 0 <= j < k implies suffix_size(ls, j) > max_size by {
                    lemma_suffix_size_mono(ls, j, k - 1);
                }
            }
            return k;
        }
        total = total + sz;
        k -= 1;
    }
    k
}

} // verus!
