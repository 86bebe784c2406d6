//! Names of output files.
//!
//! One packet goes into one file. The file's name is built from the time of
//! writing in milliseconds since the Unix epoch, the base name of the capture
//! the packet came from, and the packet's sequence number within that capture.

use crate::decimal::{decimal, is_digit, lemma_decimal_digits, lemma_decimal_injective, push_decimal};
use vstd::prelude::*;
use vstd::string::*;

verus! {

/// The characters `.bin`, which end every output file name.
pub open spec fn extension() -> Seq<char> {
    seq!['.', 'b', 'i', 'n']
}

/// Index of the last `/` in `path`, or -1 where it holds none.
pub open spec fn last_separator(path: Seq<char>) -> int
    decreases path.len(),
{
    if path.len() == 0 {
        -1
    } else if path.last() == '/' {
        path.len() - 1
    } else {
        last_separator(path.drop_last())
    }
}

/// The final segment of `path`: what follows its last `/`, or all of it.
pub open spec fn base_name_of(path: Seq<char>) -> Seq<char> {
    path.subrange(last_separator(path) + 1, path.len() as int)
}

/// The name of the file that holds packet number `sequence` of the capture
/// called `base`, written at `millis`.
pub open spec fn file_name_of(millis: nat, base: Seq<char>, sequence: nat) -> Seq<char> {
    decimal(millis) + seq!['_'] + base + seq!['_'] + decimal(sequence) + extension()
}

/// The place of a file called `name` inside the directory `dir`.
pub open spec fn path_in(dir: Seq<char>, name: Seq<char>) -> Seq<char> {
    dir + seq!['/'] + name
}

/// Where the last separator of a path lies, and that nothing after it is one.
pub proof fn lemma_last_separator(path: Seq<char>)
    ensures
        -1 <= last_separator(path) < path.len(),
        last_separator(path) >= 0 ==> path[last_separator(path)] == '/',
        forall|i: int| last_separator(path) < i < path.len() ==> path[i] != '/',
    decreases path.len(),
{
    if path.len() > 0 && path.last() != '/' {
        let front = path.drop_last();
        lemma_last_separator(front);
        assert forall|i: int| last_separator(path) < i < path.len() implies path[i] != '/' by {
            if i < front.len() {
                assert(front[i] == path[i]);
            }
        }
    }
}

/// A base name is the longest tail of its path that holds no `/`.
pub proof fn lemma_base_name(path: Seq<char>)
    ensures
        base_name_of(path).len() <= path.len(),
        base_name_of(path) == path.subrange(
            path.len() - base_name_of(path).len(),
            path.len() as int,
        ),
        forall|i: int| 0 <= i < base_name_of(path).len() ==> base_name_of(path)[i] != '/',
        base_name_of(path).len() < path.len() ==> path[path.len() - base_name_of(path).len() - 1]
            == '/',
{
    lemma_last_separator(path);
}

/// The final path segment of `path`, split at `/`.
pub fn base_name(path: &str) -> (base: String)
    ensures
        base@ == base_name_of(path@),
{
    let n = path.unicode_len();
    let mut start: usize = 0;
    let mut i: usize = 0;
    while i < n
        invariant
            n == path@.len(),
            i <= n,
            start == last_separator(path@.take(i as int)) + 1,
        decreases n - i,
    {
        let c = path.get_char(i);
        proof {
            let next = path@.take(i + 1);
            assert(next.drop_last() =~= path@.take(i as int));
            assert(next.last() == c);
        }
        if c == '/' {
            start = i + 1;
        }
        i += 1;
    }
    proof {
        assert(path@.take(n as int) =~= path@);
        lemma_last_separator(path@);
    }
    String::from_str(path.substring_char(start, n))
}

/// Builds the name `{millis}_{base}_{sequence}.bin`, both numbers in decimal.
pub fn output_file_name(millis: u128, base: &str, sequence: u64) -> (name: String)
    ensures
        name@ == file_name_of(millis as nat, base@, sequence as nat),
{
    proof {
        reveal_strlit("_");
        reveal_strlit(".bin");
    }
    let mut name = String::new();
    push_decimal(&mut name, millis);
    name.append("_");
    name.append(base);
    name.append("_");
    push_decimal(&mut name, sequence as u128);
    name.append(".bin");
    proof {
        assert("_"@ =~= seq!['_']);
        assert(".bin"@ =~= extension());
        assert(name@ =~= file_name_of(millis as nat, base@, sequence as nat));
    }
    name
}

/// Joins a directory and a file name with `/`.
pub fn output_path(dir: &str, name: &str) -> (path: String)
    ensures
        path@ == path_in(dir@, name@),
{
    proof {
        reveal_strlit("/");
    }
    let mut path = String::from_str(dir);
    path.append("/");
    path.append(name);
    proof {
        assert("/"@ =~= seq!['/']);
        assert(path@ =~= path_in(dir@, name@));
    }
    path
}

/// How the parts of a file name lie in it, one after the other.
pub proof fn lemma_file_name_layout(millis: nat, base: Seq<char>, sequence: nat)
    ensures
        ({
            let name = file_name_of(millis, base, sequence);
            let m = decimal(millis);
            let s = decimal(sequence);
            &&& name.len() == m.len() + 1 + base.len() + 1 + s.len() + 4
            &&& forall|i: int| 0 <= i < m.len() ==> name[i] == m[i]
            &&& name[m.len() as int] == '_'
            &&& forall|i: int| 0 <= i < base.len() ==> name[m.len() + 1 + i] == base[i]
            &&& name[m.len() + 1 + base.len() as int] == '_'
            &&& forall|i: int| 0 <= i < s.len() ==> name[m.len() + 2 + base.len() + i] == s[i]
        }),
{
}

/// A file name determines the time, the base name and the sequence number it
/// was built from: two names are equal only where all three parts are.
pub proof fn lemma_file_name_injective(
    millis_a: nat,
    base_a: Seq<char>,
    sequence_a: nat,
    millis_b: nat,
    base_b: Seq<char>,
    sequence_b: nat,
)
    requires
        file_name_of(millis_a, base_a, sequence_a) == file_name_of(millis_b, base_b, sequence_b),
    ensures
        millis_a == millis_b,
        base_a == base_b,
        sequence_a == sequence_b,
{
    let name = file_name_of(millis_a, base_a, sequence_a);
    let ma = decimal(millis_a);
    let mb = decimal(millis_b);
    let sa = decimal(sequence_a);
    let sb = decimal(sequence_b);
    lemma_file_name_layout(millis_a, base_a, sequence_a);
    lemma_file_name_layout(millis_b, base_b, sequence_b);
    lemma_decimal_digits(millis_a);
    lemma_decimal_digits(millis_b);
    lemma_decimal_digits(sequence_a);
    lemma_decimal_digits(sequence_b);
    // The first underscore ends the time.
    if ma.len() < mb.len() {
        assert(name[ma.len() as int] == mb[ma.len() as int]);
        assert(is_digit(mb[ma.len() as int]));
    }
    if mb.len() < ma.len() {
        assert(name[mb.len() as int] == ma[mb.len() as int]);
        assert(is_digit(ma[mb.len() as int]));
    }
    assert(ma =~= mb) by {
        assert forall|i: int| 0 <= i < ma.len() implies ma[i] == mb[i] by {
            assert(name[i] == ma[i]);
            assert(name[i] == mb[i]);
        }
    }
    lemma_decimal_injective(millis_a, millis_b);
    // The last underscore begins the sequence number.
    let total = name.len() as int;
    if sa.len() < sb.len() {
        let k = sb.len() - sa.len() - 1;
        assert(name[total - 4 - sa.len() - 1] == '_');
        assert(name[mb.len() + 2 + base_b.len() + k] == sb[k]);
        assert(is_digit(sb[k]));
    }
    if sb.len() < sa.len() {
        let k = sa.len() - sb.len() - 1;
        assert(name[total - 4 - sb.len() - 1] == '_');
        assert(name[ma.len() + 2 + base_a.len() + k] == sa[k]);
        assert(is_digit(sa[k]));
    }
    assert(sa =~= sb) by {
        assert forall|i: int| 0 <= i < sa.len() implies sa[i] == sb[i] by {
            assert(name[ma.len() + 2 + base_a.len() + i] == sa[i]);
            assert(name[mb.len() + 2 + base_b.len() + i] == sb[i]);
        }
    }
    lemma_decimal_injective(sequence_a, sequence_b);
    assert(base_a =~= base_b) by {
        assert forall|i: int| 0 <= i < base_a.len() implies base_a[i] == base_b[i] by {
            assert(name[ma.len() + 1 + i] == base_a[i]);
            assert(name[mb.len() + 1 + i] == base_b[i]);
        }
    }
}

/// Inside one directory, different file names lie at different places.
pub proof fn lemma_path_in_injective(dir: Seq<char>, name_a: Seq<char>, name_b: Seq<char>)
    requires
        path_in(dir, name_a) == path_in(dir, name_b),
    ensures
        name_a == name_b,
{
    let pa = path_in(dir, name_a);
    let pb = path_in(dir, name_b);
    assert(name_a =~= pa.subrange(dir.len() as int + 1, pa.len() as int));
    assert(name_b =~= pb.subrange(dir.len() as int + 1, pb.len() as int));
}

} // verus!
