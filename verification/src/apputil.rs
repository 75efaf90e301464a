//! Small helpers for programs built on this library.

use vstd::prelude::*;
use vstd::string::StrSliceExecFns;

verus! {

/// Index of the last occurrence of `c` in `s`, or -1 where there is none.
pub open spec fn last_index_of(s: Seq<char>, c: char) -> int
    decreases s.len(),
{
    if s.len() == 0 {
        -1
    } else if s.last() == c {
        s.len() - 1
    } else {
        last_index_of(s.drop_last(), c)
    }
}

/// The file stem of a path: what stands after the last `/` and before the
/// last `.` (a leading dot of the file name does not count as an extension).
pub open spec fn file_stem_spec(path: Seq<char>) -> Seq<char> {
    let name = path.skip(last_index_of(path, '/') + 1);
    let d = last_index_of(name, '.');
    if d <= 0 {
        name
    } else {
        name.take(d)
    }
}

proof fn lemma_last_index_found(s: Seq<char>, c: char, i: int)
    requires
        0 <= i < s.len(),
        s[i] == c,
        forall|j: int| i < j < s.len() ==> #[trigger] s[j] != c,
    ensures
        last_index_of(s, c) == i,
    decreases s.len(),
{
    if i == s.len() - 1 {
    } else {
        assert(s.last() != c);
        assert(forall|j: int| 0 <= j < s.len() - 1 ==> #[trigger] s.drop_last()[j] == s[j]);
        lemma_last_index_found(s.drop_last(), c, i);
    }
}

proof fn lemma_last_index_none(s: Seq<char>, c: char)
    requires
        forall|j: int| 0 <= j < s.len() ==> #[trigger] s[j] != c,
    ensures
        last_index_of(s, c) == -1,
    decreases s.len(),
{
    if s.len() > 0 {
        assert(forall|j: int| 0 <= j < s.len() - 1 ==> #[trigger] s.drop_last()[j] == s[j]);
        lemma_last_index_none(s.drop_last(), c);
    }
}

/// Index just past the last occurrence of `c` in `s`, or 0 where none.
fn scan_last(s: &str, n: usize, c: char) -> (r: usize)
    requires
        n == s@.len(),
    ensures
        r == last_index_of(s@, c) + 1,
        r <= n,
{
    let mut i: usize = n;
    while i > 0
        invariant
            i <= n == s@.len(),
            forall|j: int| i <= j < n ==> #[trigger] s@[j] != c,
        decreases i,
    {
        if s.get_char(i - 1) == c {
            proof {
                lemma_last_index_found(s@, c, i - 1);
            }
            return i;
        }
        i = i - 1;
    }
    proof {
        lemma_last_index_none(s@, c);
    }
    0
}

/// The name of the program from its argument list: the file stem of the
/// first argument.
pub fn get_program(args: &Vec<String>) -> (r: String)
    requires
        args@.len() > 0,
    ensures
        r@ == file_stem_spec(args@[0]@),
{
    let path: &str = args[0].as_str();
    let n = path.unicode_len();
    let slash_end = scan_last(path, n, '/');
    let name = path.substring_char(slash_end, n);
    let ghost name_spec = path@.skip(last_index_of(path@, '/') + 1);
    proof {
        assert(name@ =~= name_spec);
    }
    let name_len = n - slash_end;
    let dot_end = scan_last(name, name_len, '.');
    if dot_end <= 1 {
        proof {
            assert(name@.take(name@.len() as int) =~= name@);
        }
        name.to_owned()
    } else {
        let stem = name.substring_char(0, dot_end - 1);
        stem.to_owned()
    }
}

} // verus!
