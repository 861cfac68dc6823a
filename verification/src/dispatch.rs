//! Job dispatch: lays out one job per requested file index, with 1-based
//! index-derived paths of the form `{directory}/{name}{index}.{extension}`.

use vstd::prelude::*;
use vstd::string::{StrSliceExecFns, StringExecFns};
use vstd::utf8::encode_utf8;

use crate::Error;
use crate::job::Job;

verus! {

/// The decimal digit character for `d`.
pub open spec fn digit_char(d: nat) -> char
    recommends
        d < 10,
{
    if d == 0 {
        '0'
    } else if d == 1 {
        '1'
    } else if d == 2 {
        '2'
    } else if d == 3 {
        '3'
    } else if d == 4 {
        '4'
    } else if d == 5 {
        '5'
    } else if d == 6 {
        '6'
    } else if d == 7 {
        '7'
    } else if d == 8 {
        '8'
    } else {
        '9'
    }
}

/// The decimal representation of `n`, most significant digit first, with no
/// leading zeros (a single `0` for zero).
pub open spec fn dec_digits(n: nat) -> Seq<char>
    decreases n,
{
    if n < 10 {
        seq![digit_char(n)]
    } else {
        dec_digits(n / 10) + seq![digit_char(n % 10)]
    }
}

/// The path of the file with 1-based index `index` of a run:
/// `{directory}/{name}{index}.{extension}`.
pub open spec fn job_path(
    directory: Seq<char>,
    name: Seq<char>,
    index: nat,
    extension: Seq<char>,
) -> Seq<char> {
    directory + seq!['/'] + name + dec_digits(index) + seq!['.'] + extension
}

/// Whether the run-wide configuration is acceptable: a nonempty fill string
/// whose byte length is at most the chunk size, and a positive chunk size.
pub open spec fn config_ok(string: Seq<char>, write_size: u128) -> bool {
    &&& 0 < encode_utf8(string).len()
    &&& encode_utf8(string).len() <= write_size
    &&& 0 < write_size
}

/// Whether `j` is the job a run builds for 1-based index `index`.
pub open spec fn job_built(
    j: Job,
    directory: Seq<char>,
    name: Seq<char>,
    index: nat,
    extension: Seq<char>,
    string: Seq<char>,
    size: u128,
    write_size: u128,
) -> bool {
    &&& j.path@ == job_path(directory, name, index, extension)
    &&& j.string@ == string
    &&& j.size == size
    &&& j.write_size == write_size
}

/// A decimal representation is never empty.
proof fn lemma_dec_digits_nonempty(n: nat)
    ensures
        dec_digits(n).len() >= 1,
{
}

/// Distinct numbers have distinct decimal representations.
proof fn lemma_dec_digits_injective(a: nat, b: nat)
    requires
        dec_digits(a) == dec_digits(b),
    ensures
        a == b,
    decreases a,
{
    if a < 10 && b < 10 {
        assert(dec_digits(a)[0] == digit_char(a));
        assert(dec_digits(b)[0] == digit_char(b));
    } else if a < 10 && b >= 10 {
        lemma_dec_digits_nonempty(b / 10);
        assert(dec_digits(b).len() >= 2);
    } else if a >= 10 && b < 10 {
        lemma_dec_digits_nonempty(a / 10);
        assert(dec_digits(a).len() >= 2);
    } else {
        let da = dec_digits(a);
        let db = dec_digits(b);
        assert(da.last() == digit_char(a % 10));
        assert(db.last() == digit_char(b % 10));
        assert(da.drop_last() =~= dec_digits(a / 10));
        assert(db.drop_last() =~= dec_digits(b / 10));
        lemma_dec_digits_injective(a / 10, b / 10);
        assert(a % 10 == b % 10);
        assert(a == (a / 10) * 10 + a % 10);
        assert(b == (b / 10) * 10 + b % 10);
    }
}

/// Paths are unique per job within a run: two jobs built from the same
/// directory, name prefix and extension but distinct 1-based indices have
/// distinct paths, so concurrent jobs never touch the same file.
pub proof fn lemma_job_paths_distinct(
    directory: Seq<char>,
    name: Seq<char>,
    extension: Seq<char>,
    i: nat,
    j: nat,
)
    requires
        i != j,
    ensures
        job_path(directory, name, i, extension) != job_path(directory, name, j, extension),
{
    let pi = job_path(directory, name, i, extension);
    let pj = job_path(directory, name, j, extension);
    let di = dec_digits(i);
    let dj = dec_digits(j);
    let p = directory.len() + 1 + name.len();
    if pi == pj {
        assert(pi.len() == p + di.len() + 1 + extension.len());
        assert(pj.len() == p + dj.len() + 1 + extension.len());
        assert(di.len() == dj.len());
        assert forall|k: int| 0 <= k < di.len() implies di[k] == dj[k] by {
            assert(pi[p as int + k] == di[k]);
            assert(pj[p as int + k] == dj[k]);
        }
        assert(di =~= dj);
        lemma_dec_digits_injective(i, j);
    }
}

/// The one-character string for a decimal digit.
fn digit_str(d: u64) -> (r: &'static str)
    requires
        d < 10,
    ensures
        r@ == seq![digit_char(d as nat)],
{
    proof {
        reveal_strlit("0");
        reveal_strlit("1");
        reveal_strlit("2");
        reveal_strlit("3");
        reveal_strlit("4");
        reveal_strlit("5");
        reveal_strlit("6");
        reveal_strlit("7");
        reveal_strlit("8");
        reveal_strlit("9");
    }
    let r: &'static str = if d == 0 {
        "0"
    } else if d == 1 {
        "1"
    } else if d == 2 {
        "2"
    } else if d == 3 {
        "3"
    } else if d == 4 {
        "4"
    } else if d == 5 {
        "5"
    } else if d == 6 {
        "6"
    } else if d == 7 {
        "7"
    } else if d == 8 {
        "8"
    } else {
        "9"
    };
    proof {
        assert(r@ =~= seq![digit_char(d as nat)]);
    }
    r
}

/// Render `n` in decimal.
pub fn decimal_string(n: u64) -> (s: String)
    ensures
        s@ == dec_digits(n as nat),
    decreases n,
{
    if n < 10 {
        String::from_str(digit_str(n))
    } else {
        let mut s = decimal_string(n / 10);
        s.append(digit_str(n % 10));
        proof {
            assert(s@ =~= dec_digits(n as nat));
        }
        s
    }
}

/// Build the destination path for the job with 1-based index `index`.
pub fn file_path(directory: &str, name: &str, index: u64, extension: &str) -> (p: String)
    ensures
        p@ == job_path(directory@, name@, index as nat, extension@),
{
    proof {
        reveal_strlit("/");
        reveal_strlit(".");
    }
    let mut p = String::from_str(directory);
    p.append("/");
    p.append(name);
    let idx = decimal_string(index);
    p.append(idx.as_str());
    p.append(".");
    p.append(extension);
    proof {
        assert(p@ =~= job_path(directory@, name@, index as nat, extension@));
    }
    p
}

/// Lay out the jobs of a run: validate the run-wide configuration, then
/// build one job per 1-based index `1..=amount`, each with its own
/// index-derived path and the shared fill string and sizes.
#[verifier::loop_isolation(false)]
pub fn make_jobs(
    amount: u64,
    directory: &str,
    name: &str,
    extension: &str,
    string: &str,
    size: u128,
    write_size: u128,
) -> (r: Result<Vec<Job>, Error>)
    ensures
        r is Ok <==> config_ok(string@, write_size),
        !config_ok(string@, write_size) ==> r == Err::<Vec<Job>, Error>(Error::ConfigurationError),
        r matches Ok(jobs) ==> {
            &&& jobs@.len() == amount
            &&& forall|k: int|
                0 <= k < amount ==> job_built(
                    #[trigger] jobs@[k],
                    directory@,
                    name@,
                    (k + 1) as nat,
                    extension@,
                    string@,
                    size,
                    write_size,
                )
            &&& forall|k: int| 0 <= k < amount ==> (#[trigger] jobs@[k]).valid()
            &&& forall|k1: int, k2: int|
                #![trigger jobs@[k1], jobs@[k2]]
                0 <= k1 < amount && 0 <= k2 < amount && k1 != k2 ==> jobs@[k1].path@
                    != jobs@[k2].path@
        },
{
    let fill = string.as_bytes_vec();
    let flen = fill.len();
    if flen == 0 || write_size == 0 || (flen as u128) > write_size {
        return Err(Error::ConfigurationError);
    }
    let mut jobs: Vec<Job> = Vec::new();
    let mut i: u64 = 0;
    while i < amount
        invariant
            i <= amount,
            jobs@.len() == i,
            forall|k: int|
                0 <= k < i ==> job_built(
                    #[trigger] jobs@[k],
                    directory@,
                    name@,
                    (k + 1) as nat,
                    extension@,
                    string@,
                    size,
                    write_size,
                ),
        decreases amount - i,
    {
        let idx = i + 1;
        let path = file_path(directory, name, idx, extension);
        let job = Job::new(path, String::from_str(string), size, write_size);
        jobs.push(job);
        i = idx;
    }
    proof {
        assert forall|k1: int, k2: int|
            0 <= k1 < jobs@.len() && 0 <= k2 < jobs@.len() && k1 != k2 implies jobs@[k1].path@
            != jobs@[k2].path@ by {
            lemma_job_paths_distinct(
                directory@,
                name@,
                extension@,
                (k1 + 1) as nat,
                (k2 + 1) as nat,
            );
        }
    }
    Ok(jobs)
}

} // verus!
