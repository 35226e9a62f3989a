//! Deterministic, collision-free file naming.
//!
//! The canonical relative path of a capture instant is
//! `{year}/{month:02}-{Mon}/{year}{month:02}{day:02}_{hour:02}{minute:02}{second:02}.{millis:03}.{extension}`
//! with a fixed English three-letter month abbreviation.  When that
//! path is already claimed within the current batch, a numeric suffix
//! `-2`, `-3`, ... is placed before the extension; the smallest free
//! suffix wins, so the outcome is a pure function of the inputs.

use vstd::prelude::*;
use vstd::string::StringExecFns;
use vstd::set_lib::{lemma_int_range, lemma_len_subset, lemma_map_size, set_int_range};
use vstd::relations::injective_on;

use crate::strutil::{
    dec2, dec3, dec_digits, lemma_dec_digits_injective, lemma_dec_digits_val, push_dec2, push_dec3,
    push_dec_u64, str_eq,
};
use crate::timestamp::CaptureTimestamp;

verus! {

/// The fixed English three-letter abbreviation of a month.
pub open spec fn month_abbrev(m: int) -> Seq<char> {
    if m == 1 {
        "Jan"@
    } else if m == 2 {
        "Feb"@
    } else if m == 3 {
        "Mar"@
    } else if m == 4 {
        "Apr"@
    } else if m == 5 {
        "May"@
    } else if m == 6 {
        "Jun"@
    } else if m == 7 {
        "Jul"@
    } else if m == 8 {
        "Aug"@
    } else if m == 9 {
        "Sep"@
    } else if m == 10 {
        "Oct"@
    } else if m == 11 {
        "Nov"@
    } else {
        "Dec"@
    }
}

pub fn month_abbrev_str(m: u32) -> (r: &'static str)
    requires
        1 <= m <= 12,
    ensures
        r@ == month_abbrev(m as int),
{
    if m == 1 {
        "Jan"
    } else if m == 2 {
        "Feb"
    } else if m == 3 {
        "Mar"
    } else if m == 4 {
        "Apr"
    } else if m == 5 {
        "May"
    } else if m == 6 {
        "Jun"
    } else if m == 7 {
        "Jul"
    } else if m == 8 {
        "Aug"
    } else if m == 9 {
        "Sep"
    } else if m == 10 {
        "Oct"
    } else if m == 11 {
        "Nov"
    } else {
        "Dec"
    }
}

/// The `{year}/{month:02}-{Mon}` directory bucket of an instant.
pub open spec fn spec_bucket_of(ts: CaptureTimestamp) -> Seq<char> {
    dec_digits(ts.year as nat) + "/"@ + dec2(ts.month as int) + "-"@ + month_abbrev(ts.month as int)
}

/// The canonical path up to, but not including, the extension or any
/// tie-break suffix.
pub open spec fn path_base(ts: CaptureTimestamp) -> Seq<char> {
    spec_bucket_of(ts) + "/"@ + dec_digits(ts.year as nat) + dec2(ts.month as int) + dec2(
        ts.day as int,
    ) + "_"@ + dec2(ts.hour as int) + dec2(ts.minute as int) + dec2(ts.second as int) + "."@ + dec3(
        ts.millis as int,
    )
}

/// The unsuffixed canonical path.
pub open spec fn canonical_path(ts: CaptureTimestamp, ext: Seq<char>) -> Seq<char> {
    path_base(ts) + "."@ + ext
}

/// The canonical path with tie-break suffix `n`.
pub open spec fn suffixed_path(ts: CaptureTimestamp, ext: Seq<char>, n: nat) -> Seq<char> {
    path_base(ts) + "-"@ + dec_digits(n) + "."@ + ext
}

/// Some claimed name reads `name`.
pub open spec fn claimed_contains(claimed: Seq<String>, name: Seq<char>) -> bool {
    exists|i: int| 0 <= i < claimed.len() && (#[trigger] claimed[i])@ == name
}

/// `n` is the least tie-break suffix whose path is not claimed.
pub open spec fn is_min_free_suffix(
    ts: CaptureTimestamp,
    ext: Seq<char>,
    claimed: Seq<String>,
    n: nat,
) -> bool {
    &&& n >= 2
    &&& !claimed_contains(claimed, suffixed_path(ts, ext, n))
    &&& forall|m: nat| 2 <= m < n ==> claimed_contains(claimed, suffixed_path(ts, ext, m))
}

/// The name the generator picks: the canonical path when free, else the
/// path with the least free suffix.
pub open spec fn spec_generate_filename(
    ts: CaptureTimestamp,
    ext: Seq<char>,
    claimed: Seq<String>,
) -> Seq<char> {
    if !claimed_contains(claimed, canonical_path(ts, ext)) {
        canonical_path(ts, ext)
    } else {
        suffixed_path(ts, ext, choose|n: nat| is_min_free_suffix(ts, ext, claimed, n))
    }
}

/// Distinct suffixes give distinct paths.
pub proof fn lemma_suffixed_path_injective(
    ts: CaptureTimestamp,
    ext: Seq<char>,
    n1: nat,
    n2: nat,
)
    requires
        suffixed_path(ts, ext, n1) == suffixed_path(ts, ext, n2),
    ensures
        n1 == n2,
{
    lemma_dec_digits_val(n1);
    lemma_dec_digits_val(n2);
    let p = path_base(ts) + "-"@;
    let t1 = "."@ + ext;
    let s1 = suffixed_path(ts, ext, n1);
    let s2 = suffixed_path(ts, ext, n2);
    let d1 = dec_digits(n1);
    let d2 = dec_digits(n2);
    assert(s1 =~= p + d1 + t1);
    assert(s2 =~= p + d2 + t1);
    assert(s1.len() == p.len() + d1.len() + t1.len());
    assert(d1.len() == d2.len());
    assert(d1 =~= s1.subrange(p.len() as int, p.len() as int + d1.len() as int));
    assert(d2 =~= s2.subrange(p.len() as int, p.len() as int + d2.len() as int));
    lemma_dec_digits_injective(n1, n2);
}

/// Among the suffixes `2 ..= claimed.len() + 2` at least one path is
/// unclaimed: there are one more candidates than claimed names, and the
/// candidates are pairwise distinct.
pub proof fn lemma_free_suffix_exists(ts: CaptureTimestamp, ext: Seq<char>, claimed: Seq<String>)
    ensures
        exists|n: nat|
            2 <= n < claimed.len() + 3 && !claimed_contains(
                claimed,
                #[trigger] suffixed_path(ts, ext, n),
            ),
{
    let len = claimed.len() as int;
    if forall|n: nat|
        2 <= n < len + 3 ==> claimed_contains(claimed, #[trigger] suffixed_path(ts, ext, n)) {
        let f = |n: int| suffixed_path(ts, ext, n as nat);
        let s = set_int_range(2, len + 3);
        lemma_int_range(2, len + 3);
        assert(s.finite());
        assert(s.len() == len + 1);
        assert(injective_on(f, s)) by {
            assert forall|x: int, y: int| s.contains(x) && s.contains(y) && #[trigger] f(x)
                == #[trigger] f(y) implies x == y by {
                lemma_suffixed_path_injective(ts, ext, x as nat, y as nat);
            }
        }
        let y = s.map(f);
        lemma_map_size(s, y, f);
        let names = claimed.map_values(|c: String| c@);
        let cs = names.to_set();
        names.lemma_cardinality_of_set();
        assert(names.len() == len);
        assert(y.subset_of(cs)) by {
            assert forall|e: Seq<char>| y.contains(e) implies cs.contains(e) by {
                let n = choose|n: int| s.contains(n) && f(n) == e;
                assert(claimed_contains(claimed, suffixed_path(ts, ext, n as nat)));
                let i = choose|i: int|
                    0 <= i < claimed.len() && (#[trigger] claimed[i])@ == suffixed_path(
                        ts,
                        ext,
                        n as nat,
                    );
                assert(names[i] == e);
                assert(names.contains(e));
            }
        }
        lemma_len_subset(y, cs);
        assert(false);
    }
}

/// Some suffix is the least free one.
pub proof fn lemma_min_free_suffix_exists(
    ts: CaptureTimestamp,
    ext: Seq<char>,
    claimed: Seq<String>,
)
    ensures
        exists|n: nat| is_min_free_suffix(ts, ext, claimed, n),
{
    lemma_free_suffix_exists(ts, ext, claimed);
    let n0 = choose|n: nat|
        2 <= n < claimed.len() + 3 && !claimed_contains(
            claimed,
            #[trigger] suffixed_path(ts, ext, n),
        );
    lemma_min_free_suffix_from(ts, ext, claimed, n0);
}

proof fn lemma_min_free_suffix_from(
    ts: CaptureTimestamp,
    ext: Seq<char>,
    claimed: Seq<String>,
    n0: nat,
)
    requires
        n0 >= 2,
        !claimed_contains(claimed, suffixed_path(ts, ext, n0)),
    ensures
        exists|n: nat| is_min_free_suffix(ts, ext, claimed, n),
    decreases n0,
{
    if forall|m: nat| 2 <= m < n0 ==> claimed_contains(claimed, #[trigger] suffixed_path(ts, ext, m)) {
        assert(is_min_free_suffix(ts, ext, claimed, n0));
    } else {
        let m = choose|m: nat|
            2 <= m < n0 && !claimed_contains(claimed, #[trigger] suffixed_path(ts, ext, m));
        lemma_min_free_suffix_from(ts, ext, claimed, m);
    }
}

/// The least free suffix is unique.
pub proof fn lemma_min_free_suffix_unique(
    ts: CaptureTimestamp,
    ext: Seq<char>,
    claimed: Seq<String>,
    n1: nat,
    n2: nat,
)
    requires
        is_min_free_suffix(ts, ext, claimed, n1),
        is_min_free_suffix(ts, ext, claimed, n2),
    ensures
        n1 == n2,
{
}

/// Laws of the generator.  Determinism is the exec contract itself: the
/// result is a function of the instant, the extension and the claimed
/// set.  Beyond that, the name never collides with a claimed name; when
/// the canonical path is free it is returned unchanged; when it is
/// already claimed the result carries the least free numeric suffix,
/// which is at least 2.
pub proof fn lemma_generate_filename_properties(
    ts: CaptureTimestamp,
    ext: Seq<char>,
    claimed: Seq<String>,
)
    ensures
        !claimed_contains(claimed, spec_generate_filename(ts, ext, claimed)),
        !claimed_contains(claimed, canonical_path(ts, ext)) ==> spec_generate_filename(
            ts,
            ext,
            claimed,
        ) == canonical_path(ts, ext),
        claimed_contains(claimed, canonical_path(ts, ext)) ==> exists|n: nat|
            is_min_free_suffix(ts, ext, claimed, n) && spec_generate_filename(ts, ext, claimed)
                == suffixed_path(ts, ext, n),
{
    if claimed_contains(claimed, canonical_path(ts, ext)) {
        lemma_min_free_suffix_exists(ts, ext, claimed);
        let n = choose|n: nat| is_min_free_suffix(ts, ext, claimed, n);
        assert(spec_generate_filename(ts, ext, claimed) == suffixed_path(ts, ext, n));
    }
}

/// Law: every name the generator can yield opens with the instant's
/// own `{year}/{month:02}-{Mon}/` bucket directory, whether or not a
/// tie-break suffix was needed.  Canonical paths never cross bucket
/// boundaries, which is what lets distinct buckets be placed
/// concurrently with no shared claimed set.
pub proof fn lemma_generated_name_in_bucket(
    ts: CaptureTimestamp,
    ext: Seq<char>,
    claimed: Seq<String>,
)
    ensures
        spec_generate_filename(ts, ext, claimed).len() > spec_bucket_of(ts).len(),
        spec_generate_filename(ts, ext, claimed).take(spec_bucket_of(ts).len() as int)
            == spec_bucket_of(ts),
        spec_generate_filename(ts, ext, claimed)[spec_bucket_of(ts).len() as int] == '/',
{
    reveal_strlit("/");
    let b = spec_bucket_of(ts);
    let r = spec_generate_filename(ts, ext, claimed);
    lemma_dec_digits_val(ts.millis as nat);
    assert("/"@[0] == '/');
    if !claimed_contains(claimed, canonical_path(ts, ext)) {
        assert(r.take(b.len() as int) =~= b);
        assert(r[b.len() as int] == '/');
    } else {
        lemma_min_free_suffix_exists(ts, ext, claimed);
        let n = choose|n: nat| is_min_free_suffix(ts, ext, claimed, n);
        assert(r == suffixed_path(ts, ext, n));
        assert(r.take(b.len() as int) =~= b);
        assert(r[b.len() as int] == '/');
    }
}

/// Names paths from capture instants with deterministic tie-breaking.
pub struct FilenameGenerator {}

impl FilenameGenerator {
    pub fn new() -> (r: FilenameGenerator) {
        FilenameGenerator {  }
    }

    /// The canonical path of `ts` with `extension`, tie-broken against
    /// `existing_files`: deterministic, and never a member of
    /// `existing_files`.  The caller registers the winning name itself
    /// after a successful placement; this function does not.
    pub fn generate_filename(
        &self,
        ts: &CaptureTimestamp,
        extension: &str,
        existing_files: &Vec<String>,
    ) -> (r: String)
        requires
            ts.valid(),
            existing_files@.len() + 3 <= usize::MAX,
        ensures
            r@ == spec_generate_filename(*ts, extension@, existing_files@),
            !claimed_contains(existing_files@, r@),
    {
        let mut base = String::new();
        push_dec_u64(&mut base, ts.year as u64);
        base.append("/");
        push_dec2(&mut base, ts.month);
        base.append("-");
        base.append(month_abbrev_str(ts.month));
        base.append("/");
        push_dec_u64(&mut base, ts.year as u64);
        push_dec2(&mut base, ts.month);
        push_dec2(&mut base, ts.day);
        base.append("_");
        push_dec2(&mut base, ts.hour);
        push_dec2(&mut base, ts.minute);
        push_dec2(&mut base, ts.second);
        base.append(".");
        push_dec3(&mut base, ts.millis as u32);
        proof {
            assert(base@ =~= path_base(*ts));
        }
        let mut canonical = base.clone();
        canonical.append(".");
        canonical.append(extension);
        proof {
            assert(canonical@ =~= canonical_path(*ts, extension@));
        }
        if !contains_name(existing_files, &canonical) {
            return canonical;
        }
        proof {
            lemma_min_free_suffix_exists(*ts, extension@, existing_files@);
        }
        let ghost min_n = choose|n: nat| is_min_free_suffix(*ts, extension@, existing_files@, n);
        proof {
            lemma_free_suffix_exists(*ts, extension@, existing_files@);
            let n0 = choose|k: nat|
                2 <= k < existing_files@.len() + 3 && !claimed_contains(
                    existing_files@,
                    #[trigger] suffixed_path(*ts, extension@, k),
                );
            assert(min_n <= n0);
        }
        let mut n: usize = 2;
        loop
            invariant
                ts.valid(),
                existing_files@.len() + 3 <= usize::MAX,
                base@ == path_base(*ts),
                claimed_contains(existing_files@, canonical_path(*ts, extension@)),
                is_min_free_suffix(*ts, extension@, existing_files@, min_n),
                min_n < existing_files@.len() + 3,
                2 <= n <= min_n,
                forall|m: nat|
                    2 <= m < n ==> claimed_contains(
                        existing_files@,
                        #[trigger] suffixed_path(*ts, extension@, m),
                    ),
            decreases min_n - n,
        {
            let mut candidate = base.clone();
            candidate.append("-");
            push_dec_u64(&mut candidate, n as u64);
            candidate.append(".");
            candidate.append(extension);
            proof {
                assert(candidate@ =~= suffixed_path(*ts, extension@, n as nat));
            }
            if !contains_name(existing_files, &candidate) {
                proof {
                    assert(is_min_free_suffix(*ts, extension@, existing_files@, n as nat));
                    lemma_min_free_suffix_unique(
                        *ts,
                        extension@,
                        existing_files@,
                        n as nat,
                        min_n,
                    );
                    let picked = choose|k: nat|
                        is_min_free_suffix(*ts, extension@, existing_files@, k);
                    lemma_min_free_suffix_unique(*ts, extension@, existing_files@, picked, min_n);
                }
                return candidate;
            }
            proof {
                assert(n < min_n);
            }
            n = n + 1;
        }
    }
}

/// Whether `name` reads the same as some member of `files`.
pub fn contains_name(files: &Vec<String>, name: &String) -> (r: bool)
    ensures
        r == claimed_contains(files@, name@),
{
    let len = files.len();
    let mut i: usize = 0;
    while i < len
        invariant
            len == files@.len(),
            i <= len,
            forall|j: int| 0 <= j < i ==> (#[trigger] files@[j])@ != name@,
        decreases len - i,
    {
        if str_eq(files[i].as_str(), name.as_str()) {
            return true;
        }
        i = i + 1;
    }
    false
}

} // verus!
