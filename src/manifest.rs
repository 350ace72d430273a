use vstd::prelude::*;
use crate::error::PackError;
use crate::json::{json_accepts, json_str_member, read_str_member};

verus! {

#[verifier::external_type_specification]
#[verifier::external_body]
pub struct ExRegexError(regex::Error);

/// The placeholder that receives the package's version.
pub const VERSION_PLACEHOLDER: &'static str = "{VERSION}";

/// The sentinel date that receives the build's UTC date.
pub const DATE_SENTINEL: &'static str = "1900-01-01";

/// `s` with every occurrence of the non-empty literal `p` replaced by `r`,
/// scanning from the left; a replaced occurrence is skipped over whole, so
/// occurrences do not overlap.
pub open spec fn replace_all(s: Seq<char>, p: Seq<char>, r: Seq<char>) -> Seq<char>
    decreases s.len(),
{
    if p.len() == 0 || s.len() < p.len() {
        s
    } else if s.subrange(0, p.len() as int) == p {
        r + replace_all(s.subrange(p.len() as int, s.len() as int), p, r)
    } else {
        seq![s[0]] + replace_all(s.drop_first(), p, r)
    }
}

/// How many occurrences of `p` the left-to-right scan of `replace_all` replaces.
pub open spec fn count_occurrences(s: Seq<char>, p: Seq<char>) -> nat
    decreases s.len(),
{
    if p.len() == 0 || s.len() < p.len() {
        0
    } else if s.subrange(0, p.len() as int) == p {
        1 + count_occurrences(s.subrange(p.len() as int, s.len() as int), p)
    } else {
        count_occurrences(s.drop_first(), p)
    }
}

/// Whether `p` occurs anywhere in `s`.
pub open spec fn occurs_in(s: Seq<char>, p: Seq<char>) -> bool {
    exists|i: int| 0 <= i && i + p.len() <= s.len() && #[trigger] s.subrange(i, i + p.len()) == p
}

/// The manifest text after both substitutions: the version first, then the date.
pub open spec fn patched(text: Seq<char>, version: Seq<char>, today: Seq<char>) -> Seq<char> {
    replace_all(replace_all(text, VERSION_PLACEHOLDER@, version), DATE_SENTINEL@, today)
}

/// Relies on regex::escape, regex::Regex::new and regex::Regex::replace_all with
/// regex::NoExpand: the escaped pattern matches exactly the literal, and every
/// non-overlapping leftmost match is replaced by the text as it stands.
/// Compiling fails only past the engine's size limits, far above an escaped
/// literal of ten characters.
#[verifier::external_body]
fn regex_replace_literal(text: &str, pattern: &str, rep: &str) -> (r: Result<String, regex::Error>)
    requires
        pattern@.len() > 0,
    ensures
        pattern@.len() <= 10 ==> r.is_ok(),
        r.is_ok() ==> r->Ok_0@ == replace_all(text@, pattern@, rep@),
{
    let re = regex::Regex::new(&regex::escape(pattern))?;
    Ok(re.replace_all(text, regex::NoExpand(rep)).into_owned())
}

/// The first second of the year 10000, where a year stops fitting four digits.
pub const YEAR_10000_SECS: i64 = 253402300800;

/// The UTC calendar date, as `%Y-%m-%d` text, of the moment `secs` seconds
/// after the Unix epoch.
pub uninterp spec fn utc_date_text(secs: int) -> Seq<char>;

pub open spec fn is_digit(c: char) -> bool {
    '0' <= c && c <= '9'
}

/// `YYYY-MM-DD`: ten characters, digits but for a dash at places four and seven.
pub open spec fn is_iso_date_text(s: Seq<char>) -> bool {
    s.len() == 10 && s[4] == '-' && s[7] == '-'
        && forall|i: int| 0 <= i < 10 && i != 4 && i != 7 ==> is_digit(#[trigger] s[i])
}

/// Relies on std::time::SystemTime::now and SystemTime::duration_since with
/// std::time::UNIX_EPOCH: the seconds since the epoch, or `None` when the
/// clock reads before it. It depends on the clock, so nothing more is stated.
#[verifier::external_body]
fn epoch_seconds() -> (r: Option<u64>) {
    std::time::SystemTime::now().duration_since(std::time::UNIX_EPOCH).ok().map(|d| d.as_secs())
}

/// Relies on chrono::DateTime::from_timestamp, date_naive and
/// format("%Y-%m-%d"): `None` only out of chrono's range. From the epoch up to
/// the year 10000 the year is 1970 or later and has four digits, so the text
/// is `YYYY-MM-DD` and is not the sentinel date.
#[verifier::external_body]
fn date_text_of(secs: i64) -> (r: Option<String>)
    ensures
        0 <= secs < YEAR_10000_SECS ==> r.is_some(),
        r.is_some() ==> r->Some_0@ == utc_date_text(secs as int),
        0 <= secs < YEAR_10000_SECS ==> is_iso_date_text(r->Some_0@),
        0 <= secs < YEAR_10000_SECS ==> r->Some_0@ != DATE_SENTINEL@,
{
    chrono::DateTime::from_timestamp(secs, 0).map(|d| d.date_naive().format("%Y-%m-%d").to_string())
}

/// Replaces every `{VERSION}` in `text` with `version`, then every
/// `1900-01-01` with `today`. The patterns are fixed literals, so this
/// always succeeds.
pub fn substitute_strings(text: &str, version: &str, today: &str) -> (r: Result<String, PackError>)
    ensures
        r.is_ok(),
        r->Ok_0@ == patched(text@, version@, today@),
{
    proof {
        reveal_strlit("{VERSION}");
        reveal_strlit("1900-01-01");
    }
    let step = match regex_replace_literal(text, VERSION_PLACEHOLDER, version) {
        Ok(s) => s,
        Err(_) => { return Err(PackError::Configuration); },
    };
    match regex_replace_literal(step.as_str(), DATE_SENTINEL, today) {
        Ok(s) => Ok(s),
        Err(_) => Err(PackError::Configuration),
    }
}

/// Patches the manifest text with `version` and the UTC date of the moment
/// `secs` seconds after the epoch. Up to the year 10000 this succeeds with a
/// `YYYY-MM-DD` date; beyond chrono's range it is `ClockUnavailable`.
pub fn patch_manifest_at(text: &str, version: &str, secs: u64) -> (r: Result<String, PackError>)
    ensures
        secs < YEAR_10000_SECS ==> r.is_ok(),
        secs < YEAR_10000_SECS ==> is_iso_date_text(utc_date_text(secs as int)),
        r.is_ok() ==> r->Ok_0@ == patched(text@, version@, utc_date_text(secs as int)),
        r.is_err() ==> r == Err::<String, PackError>(PackError::ClockUnavailable),
{
    if secs > i64::MAX as u64 {
        return Err(PackError::ClockUnavailable);
    }
    match date_text_of(secs as i64) {
        Some(today) => {
            let r = substitute_strings(text, version, today.as_str());
            r
        },
        None => Err(PackError::ClockUnavailable),
    }
}

/// Patches the manifest text with `version` and today's UTC date, read from
/// the system clock. A clock that reads before the epoch is `ClockUnavailable`.
pub fn patch_manifest(text: &str, version: &str) -> (r: Result<String, PackError>)
    ensures
        r.is_ok() ==> exists|secs: int| 0 <= secs && #[trigger] r->Ok_0@ == patched(text@, version@, utc_date_text(secs))
            && (secs < YEAR_10000_SECS ==> is_iso_date_text(utc_date_text(secs))),
        r.is_err() ==> r == Err::<String, PackError>(PackError::ClockUnavailable),
{
    match epoch_seconds() {
        Some(secs) => patch_manifest_at(text, version, secs),
        None => Err(PackError::ClockUnavailable),
    }
}

/// The version that metadata text records: its string member `version`, or
/// the empty string when there is none.
pub open spec fn metadata_version(metadata: Seq<char>) -> Seq<char> {
    match json_str_member(metadata, seq!['v', 'e', 'r', 's', 'i', 'o', 'n']) {
        Some(v) => v,
        None => Seq::empty(),
    }
}

/// The package's version from its metadata text: the string member `version`,
/// or the empty string when there is none. Metadata that is not JSON is a
/// `Configuration` error.
pub fn version_of(metadata: &str) -> (r: Result<String, PackError>)
    ensures
        r.is_ok() == json_accepts(metadata@),
        r.is_ok() ==> r->Ok_0@ == metadata_version(metadata@),
        r.is_err() ==> r == Err::<String, PackError>(PackError::Configuration),
{
    proof {
        reveal_strlit("version");
        assert("version"@ =~= seq!['v', 'e', 'r', 's', 'i', 'o', 'n']);
    }
    match read_str_member(metadata, "version") {
        Ok(Some(s)) => Ok(s),
        Ok(None) => {
            let empty = String::new();
            assert(empty@ =~= Seq::<char>::empty());
            Ok(empty)
        },
        Err(_) => Err(PackError::Configuration),
    }
}

/// Text without the pattern passes through a substitution unchanged.
pub proof fn lemma_replace_without_pattern(s: Seq<char>, p: Seq<char>, r: Seq<char>)
    requires
        p.len() > 0,
        !occurs_in(s, p),
    ensures
        replace_all(s, p, r) == s,
        count_occurrences(s, p) == 0,
    decreases s.len(),
{
    if s.len() >= p.len() {
        assert(!(s.subrange(0, 0 + p.len() as int) == p));
        let t = s.drop_first();
        assert forall|i: int| 0 <= i && i + p.len() <= t.len() implies #[trigger] t.subrange(i, i + p.len()) != p by {
            assert(t.subrange(i, i + p.len()) =~= s.subrange(i + 1, i + 1 + p.len()));
        }
        lemma_replace_without_pattern(t, p, r);
        assert(seq![s[0]] + t =~= s);
    }
}

/// Each replaced occurrence of `p` stands as one copy of `r`: the text's length
/// changes by the count times the difference in length.
#[verifier::nonlinear]
pub proof fn lemma_replace_length(s: Seq<char>, p: Seq<char>, r: Seq<char>)
    requires
        p.len() > 0,
    ensures
        replace_all(s, p, r).len() as int == s.len() as int + count_occurrences(s, p) as int * (r.len() as int - p.len() as int),
    decreases s.len(),
{
    if s.len() >= p.len() {
        let d = r.len() as int - p.len() as int;
        if s.subrange(0, p.len() as int) == p {
            let t = s.subrange(p.len() as int, s.len() as int);
            lemma_replace_length(t, p, r);
            let c = count_occurrences(t, p) as int;
            assert((1 + c) * d == d + c * d);
            assert(count_occurrences(s, p) == 1 + c);
            assert(replace_all(s, p, r) == r + replace_all(t, p, r));
            assert(replace_all(s, p, r).len() == r.len() + t.len() + c * d);
            assert(replace_all(s, p, r).len() == s.len() + (1 + c) * d);
            assert(replace_all(s, p, r).len() as int == s.len() as int + count_occurrences(s, p) as int * d);
        } else {
            lemma_replace_length(s.drop_first(), p, r);
            assert(count_occurrences(s, p) == count_occurrences(s.drop_first(), p));
            assert(replace_all(s, p, r) == seq![s[0]] + replace_all(s.drop_first(), p, r));
            let c = count_occurrences(s.drop_first(), p) as int;
            assert(replace_all(s, p, r).len() == s.len() + c * d);
            assert(replace_all(s, p, r).len() as int == s.len() as int + count_occurrences(s, p) as int * d);
        }
    }
}

/// Patching text in which neither placeholder is left changes nothing, so a
/// second patch with the same version and date gives the text of the first.
pub proof fn lemma_patch_idempotent(text: Seq<char>, version: Seq<char>, today: Seq<char>)
    requires
        !occurs_in(patched(text, version, today), VERSION_PLACEHOLDER@),
        !occurs_in(patched(text, version, today), DATE_SENTINEL@),
    ensures
        patched(patched(text, version, today), version, today) == patched(text, version, today),
{
    reveal_strlit("{VERSION}");
    reveal_strlit("1900-01-01");
    let once = patched(text, version, today);
    lemma_replace_without_pattern(once, VERSION_PLACEHOLDER@, version);
    lemma_replace_without_pattern(once, DATE_SENTINEL@, today);
}

/// The pieces `g` joined with `x` between each two: `g[0] + x + g[1] + ... + g[n-1]`.
pub open spec fn join_with(g: Seq<Seq<char>>, x: Seq<char>) -> Seq<char>
    decreases g.len(),
{
    if g.len() <= 1 {
        if g.len() == 0 { Seq::empty() } else { g[0] }
    } else {
        g[0] + x + join_with(g.drop_first(), x)
    }
}

/// The text around the occurrences of `p` that the scan of `replace_all`
/// replaces, in order.
pub open spec fn gaps(s: Seq<char>, p: Seq<char>) -> Seq<Seq<char>>
    decreases s.len(),
{
    if p.len() == 0 || s.len() < p.len() {
        seq![s]
    } else if s.subrange(0, p.len() as int) == p {
        seq![Seq::<char>::empty()] + gaps(s.subrange(p.len() as int, s.len() as int), p)
    } else {
        let g = gaps(s.drop_first(), p);
        g.update(0, seq![s[0]] + g[0])
    }
}

proof fn lemma_join_with_prepend(g: Seq<Seq<char>>, c: Seq<char>, x: Seq<char>)
    requires
        g.len() >= 1,
    ensures
        join_with(g.update(0, c + g[0]), x) == c + join_with(g, x),
{
    let h = g.update(0, c + g[0]);
    if g.len() > 1 {
        assert(h.drop_first() =~= g.drop_first());
        assert(join_with(h, x) == h[0] + x + join_with(h.drop_first(), x));
        assert(c + g[0] + x + join_with(g.drop_first(), x) =~= c + (g[0] + x + join_with(g.drop_first(), x)));
    }
}

/// The text is its `count_occurrences + 1` gaps joined by the pattern, and the
/// result of `replace_all` is the same gaps joined by the replacement: each
/// replaced occurrence becomes exactly one copy of the replacement, and the
/// text between them is kept as it was.
pub proof fn lemma_replace_structure(s: Seq<char>, p: Seq<char>, r: Seq<char>)
    requires
        p.len() > 0,
    ensures
        gaps(s, p).len() == count_occurrences(s, p) + 1,
        join_with(gaps(s, p), p) == s,
        join_with(gaps(s, p), r) == replace_all(s, p, r),
    decreases s.len(),
{
    if s.len() >= p.len() {
        if s.subrange(0, p.len() as int) == p {
            let t = s.subrange(p.len() as int, s.len() as int);
            lemma_replace_structure(t, p, r);
            let g = seq![Seq::<char>::empty()] + gaps(t, p);
            assert(g.drop_first() =~= gaps(t, p));
            assert(g[0] == Seq::<char>::empty());
            assert(join_with(g, p) == Seq::<char>::empty() + p + join_with(gaps(t, p), p));
            assert(join_with(g, r) == Seq::<char>::empty() + r + join_with(gaps(t, p), r));
            assert(s =~= Seq::<char>::empty() + p + t);
            assert(Seq::<char>::empty() + r + replace_all(t, p, r) =~= r + replace_all(t, p, r));
        } else {
            let t = s.drop_first();
            lemma_replace_structure(t, p, r);
            lemma_join_with_prepend(gaps(t, p), seq![s[0]], p);
            lemma_join_with_prepend(gaps(t, p), seq![s[0]], r);
            assert(s =~= seq![s[0]] + t);
        }
    }
}

/// No character of `a` occurs in `b`.
pub open spec fn no_shared_char(a: Seq<char>, b: Seq<char>) -> bool {
    forall|i: int, j: int| 0 <= i < a.len() && 0 <= j < b.len() ==> a[i] != b[j]
}

proof fn lemma_prefix_without_replacement(t: Seq<char>, p: Seq<char>, r: Seq<char>, k: int)
    requires
        p.len() > 0,
        r.len() > 0,
        0 <= k <= replace_all(t, p, r).len(),
        forall|j: int| 0 <= j < k ==> !r.contains(#[trigger] replace_all(t, p, r)[j]),
    ensures
        k <= t.len(),
        replace_all(t, p, r).subrange(0, k) == t.subrange(0, k),
    decreases t.len(),
{
    let out = replace_all(t, p, r);
    if t.len() < p.len() {
        assert(out == t);
    } else if t.subrange(0, p.len() as int) == p {
        if k > 0 {
            assert(out[0] == r[0]);
            assert(r.contains(r[0]));
            assert(false);
        }
        assert(out.subrange(0, k) =~= t.subrange(0, k));
    } else if k > 0 {
        let rest = replace_all(t.drop_first(), p, r);
        assert(out == seq![t[0]] + rest);
        assert forall|j: int| 0 <= j < k - 1 implies !r.contains(#[trigger] rest[j]) by {
            assert(rest[j] == out[j + 1]);
        }
        lemma_prefix_without_replacement(t.drop_first(), p, r, k - 1);
        assert(out.subrange(0, k) =~= seq![t[0]] + rest.subrange(0, k - 1));
        assert(t.subrange(0, k) =~= seq![t[0]] + t.drop_first().subrange(0, k - 1));
    } else {
        assert(out.subrange(0, k) =~= t.subrange(0, k));
    }
}

/// When the replacement is non-empty and shares no character with the pattern,
/// no occurrence of the pattern is left after `replace_all`.
pub proof fn lemma_replace_leaves_no_pattern(s: Seq<char>, p: Seq<char>, r: Seq<char>)
    requires
        p.len() > 0,
        r.len() > 0,
        no_shared_char(p, r),
    ensures
        !occurs_in(replace_all(s, p, r), p),
    decreases s.len(),
{
    let out = replace_all(s, p, r);
    if s.len() < p.len() {
        assert(out == s);
    } else if s.subrange(0, p.len() as int) == p {
        let t = s.subrange(p.len() as int, s.len() as int);
        let rest = replace_all(t, p, r);
        lemma_replace_leaves_no_pattern(t, p, r);
        assert(out == r + rest);
        assert forall|i: int| 0 <= i && i + p.len() <= out.len() implies #[trigger] out.subrange(i, i + p.len()) != p by {
            if out.subrange(i, i + p.len()) == p {
                if i < r.len() {
                    assert(out.subrange(i, i + p.len())[0] == r[i]);
                } else {
                    assert(rest.subrange(i - r.len(), i - r.len() + p.len()) =~= out.subrange(i, i + p.len()));
                }
            }
        }
    } else {
        let t = s.drop_first();
        let rest = replace_all(t, p, r);
        lemma_replace_leaves_no_pattern(t, p, r);
        assert(out == seq![s[0]] + rest);
        assert forall|i: int| 0 <= i && i + p.len() <= out.len() implies #[trigger] out.subrange(i, i + p.len()) != p by {
            if out.subrange(i, i + p.len()) == p {
                if i == 0 {
                    let k = p.len() - 1;
                    assert forall|j: int| 0 <= j < k implies !r.contains(#[trigger] rest[j]) by {
                        assert(rest[j] == p[j + 1]);
                        if r.contains(rest[j]) {
                            let m = choose|m: int| 0 <= m < r.len() && r[m] == rest[j];
                            assert(p[j + 1] != r[m]);
                        }
                    }
                    lemma_prefix_without_replacement(t, p, r, k);
                    assert(s.subrange(0, p.len() as int) =~= seq![s[0]] + t.subrange(0, k));
                    assert(out.subrange(0, p.len() as int) =~= seq![s[0]] + rest.subrange(0, k));
                } else {
                    assert(rest.subrange(i - 1, i - 1 + p.len()) =~= out.subrange(i, i + p.len()));
                }
            }
        }
    }
}

} // verus!
