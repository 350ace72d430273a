use vstd::prelude::*;
use vstd::string::*;
use crate::error::PackError;
use crate::tree::{join_path, join_path_exec};
use crate::json::{json_accepts, json_is_object, json_with_member, set_object_member};

verus! {

/// Where the catalogs' JSON sidecars go in the staging tree.
pub const LOCALE_DIR: &'static str = "dist/locale";

/// The plural rule recorded in every sidecar's header.
pub const PLURAL_FORMS: &'static str = "nplurals=2; plural=n>1";

/// Whether a file name carries the catalog extension `.po` after a non-empty stem.
pub open spec fn is_catalog_name(name: Seq<char>) -> bool {
    name.len() >= 4 && name.subrange(name.len() - 3, name.len() as int) == seq!['.', 'p', 'o']
}

/// A catalog's locale: its file name without the extension.
pub open spec fn locale_of(name: Seq<char>) -> Seq<char> {
    name.subrange(0, name.len() - 3)
}

/// The sidecar's path in the staging tree: `dist/locale/<locale>.json`.
pub open spec fn sidecar_path(locale: Seq<char>) -> Seq<char> {
    join_path(LOCALE_DIR@, locale + seq!['.', 'j', 's', 'o', 'n'])
}

/// One listed entry of the translations directory: its file name and whether
/// it is a regular file.
pub struct DirEntry {
    pub name: String,
    pub is_file: bool,
}

/// A catalog to convert: its file name and its locale.
pub struct CatalogJob {
    pub name: String,
    pub locale: String,
}

pub open spec fn is_catalog_entry(e: DirEntry) -> bool {
    e.is_file && is_catalog_name(e.name@)
}

/// The catalogs among the listed entries, as (file name, locale), in listing order.
pub open spec fn catalog_jobs(entries: Seq<DirEntry>) -> Seq<(Seq<char>, Seq<char>)>
    decreases entries.len(),
{
    if entries.len() == 0 {
        Seq::empty()
    } else {
        let rest = catalog_jobs(entries.drop_last());
        let e = entries.last();
        if is_catalog_entry(e) {
            rest.push((e.name@, locale_of(e.name@)))
        } else {
            rest
        }
    }
}

pub open spec fn jobs_view(s: Seq<CatalogJob>) -> Seq<(Seq<char>, Seq<char>)> {
    s.map_values(|j: CatalogJob| (j.name@, j.locale@))
}

/// Whether a file name is a catalog, and if so its locale.
pub fn catalog_locale(name: &str) -> (r: Option<String>)
    ensures
        r.is_some() == is_catalog_name(name@),
        r.is_some() ==> r->Some_0@ == locale_of(name@),
{
    let n = name.unicode_len();
    if n < 4 {
        return None;
    }
    let ext = name.substring_char(n - 3, n);
    proof {
        reveal_strlit(".po");
    }
    let dot_po = ".po";
    let mut same = true;
    let mut k: usize = 0;
    proof {
        assert(ext@.subrange(0, 0) =~= dot_po@.subrange(0, 0));
    }
    while k < 3
        invariant
            0 <= k <= 3,
            ext@.len() == 3,
            dot_po@ == seq!['.', 'p', 'o'],
            same == (ext@.subrange(0, k as int) == dot_po@.subrange(0, k as int)),
        decreases 3 - k,
    {
        if ext.get_char(k) != dot_po.get_char(k) {
            same = false;
        }
        proof {
            if same {
                assert(ext@.subrange(0, k + 1) =~= ext@.subrange(0, k as int).push(ext@[k as int]));
                assert(dot_po@.subrange(0, k + 1) =~= dot_po@.subrange(0, k as int).push(dot_po@[k as int]));
            } else if ext@[k as int] != dot_po@[k as int] {
                assert(ext@.subrange(0, k + 1)[k as int] != dot_po@.subrange(0, k + 1)[k as int]);
            } else {
                assert(ext@.subrange(0, k as int) =~= ext@.subrange(0, k + 1).subrange(0, k as int));
                assert(dot_po@.subrange(0, k as int) =~= dot_po@.subrange(0, k + 1).subrange(0, k as int));
            }
        }
        k = k + 1;
    }
    proof {
        assert(ext@.subrange(0, 3) =~= ext@);
        assert(dot_po@.subrange(0, 3) =~= dot_po@);
    }
    if same {
        Some(String::from_str(name.substring_char(0, n - 3)))
    } else {
        None
    }
}

/// The catalogs to convert among the listed entries of the translations
/// directory: regular files named `<locale>.po`, in listing order. Every other
/// entry is skipped.
pub fn plan_catalogs(entries: &Vec<DirEntry>) -> (r: Vec<CatalogJob>)
    ensures
        jobs_view(r@) == catalog_jobs(entries@),
{
    let mut jobs: Vec<CatalogJob> = Vec::new();
    let mut i: usize = 0;
    while i < entries.len()
        invariant
            0 <= i <= entries@.len(),
            jobs_view(jobs@) == catalog_jobs(entries@.subrange(0, i as int)),
        decreases entries@.len() - i,
    {
        let e = &entries[i];
        let ghost before = jobs@;
        proof {
            assert(entries@.subrange(0, i + 1).drop_last() =~= entries@.subrange(0, i as int));
            assert(entries@.subrange(0, i + 1).last() == entries@[i as int]);
        }
        if e.is_file {
            match catalog_locale(e.name.as_str()) {
                Some(locale) => {
                    jobs.push(CatalogJob { name: e.name.clone(), locale });
                    proof {
                        assert(jobs_view(jobs@) =~= jobs_view(before).push((e.name@, locale_of(e.name@))));
                    }
                },
                None => {},
            }
        }
        i = i + 1;
    }
    proof {
        assert(entries@.subrange(0, entries@.len() as int) =~= entries@);
    }
    jobs
}

/// Plans the optional transcoding step: with no translations directory
/// configured there is nothing to convert.
pub fn convert_translations(listing: &Option<Vec<DirEntry>>) -> (r: Vec<CatalogJob>)
    ensures
        listing.is_none() ==> r@.len() == 0,
        listing.is_some() ==> jobs_view(r@) == catalog_jobs(listing->Some_0@),
{
    match listing {
        None => Vec::new(),
        Some(entries) => plan_catalogs(entries),
    }
}

/// The sidecar path of a catalog's locale.
pub fn sidecar_path_exec(locale: &str) -> (r: String)
    ensures
        r@ == sidecar_path(locale@),
{
    let mut file = String::from_str(locale);
    file.append(".json");
    proof {
        reveal_strlit(".json");
    }
    join_path_exec(LOCALE_DIR, file.as_str())
}

/// The number of catalog files among the entries.
pub open spec fn catalog_count(entries: Seq<DirEntry>) -> nat
    decreases entries.len(),
{
    if entries.len() == 0 {
        0
    } else {
        catalog_count(entries.drop_last()) + if is_catalog_entry(entries.last()) { 1nat } else { 0nat }
    }
}

/// A directory with N catalog files among any number of other entries gives
/// exactly N conversions, each from a catalog file.
pub proof fn lemma_only_catalogs_converted(entries: Seq<DirEntry>)
    ensures
        catalog_jobs(entries).len() == catalog_count(entries),
        forall|j: int| 0 <= j < catalog_jobs(entries).len() ==> is_catalog_name(#[trigger] catalog_jobs(entries)[j].0),
    decreases entries.len(),
{
    if entries.len() > 0 {
        lemma_only_catalogs_converted(entries.drop_last());
    }
}

/// Catalogs with distinct file names have distinct sidecars, so N catalogs
/// give N sidecar files.
pub proof fn lemma_sidecars_distinct(a: Seq<char>, b: Seq<char>)
    requires
        is_catalog_name(a),
        is_catalog_name(b),
        a != b,
    ensures
        sidecar_path(locale_of(a)) != sidecar_path(locale_of(b)),
{
    let sa = locale_of(a) + seq!['.', 'j', 's', 'o', 'n'];
    let sb = locale_of(b) + seq!['.', 'j', 's', 'o', 'n'];
    if locale_of(a) == locale_of(b) {
        assert(a =~= locale_of(a) + seq!['.', 'p', 'o']);
        assert(b =~= locale_of(b) + seq!['.', 'p', 'o']);
    }
    if sidecar_path(locale_of(a)) == sidecar_path(locale_of(b)) {
        reveal_strlit("dist/locale");
        let pre = LOCALE_DIR@ + seq!['/'];
        assert(sidecar_path(locale_of(a)) =~= pre + sa);
        assert(sidecar_path(locale_of(b)) =~= pre + sb);
        assert(sa =~= (pre + sa).subrange(pre.len() as int, (pre + sa).len() as int));
        assert(sb =~= (pre + sb).subrange(pre.len() as int, (pre + sb).len() as int));
        assert(locale_of(a) =~= sa.subrange(0, sa.len() - 5));
        assert(locale_of(b) =~= sb.subrange(0, sb.len() - 5));
    }
}

/// The converter's output for `locale` with the header under the empty key:
/// `{"language": <locale>, "plural-forms": <rule>}`.
pub open spec fn with_header(output: Seq<char>, locale: Seq<char>) -> Seq<char> {
    json_with_member(
        output,
        Seq::empty(),
        seq!['l', 'a', 'n', 'g', 'u', 'a', 'g', 'e'],
        locale,
        seq!['p', 'l', 'u', 'r', 'a', 'l', '-', 'f', 'o', 'r', 'm', 's'],
        PLURAL_FORMS@,
    )
}

/// Whether the converter's output is a JSON object, the only form it may take.
pub open spec fn is_catalog_object(output: Seq<char>) -> bool {
    json_accepts(output) && json_is_object(output)
}

/// Adds the locale header to the converter's output for `locale`. Output that
/// is not a JSON object is `MalformedToolOutput`.
pub fn augment_catalog(output: &str, locale: &str) -> (r: Result<String, PackError>)
    ensures
        r.is_ok() == is_catalog_object(output@),
        r.is_ok() ==> r->Ok_0@ == with_header(output@, locale@),
        r.is_err() ==> r == Err::<String, PackError>(PackError::MalformedToolOutput),
{
    proof {
        reveal_strlit("");
        reveal_strlit("language");
        reveal_strlit("plural-forms");
        assert(""@ =~= Seq::<char>::empty());
        assert("language"@ =~= seq!['l', 'a', 'n', 'g', 'u', 'a', 'g', 'e']);
        assert("plural-forms"@ =~= seq!['p', 'l', 'u', 'r', 'a', 'l', '-', 'f', 'o', 'r', 'm', 's']);
    }
    match set_object_member(output, "", "language", locale, "plural-forms", PLURAL_FORMS) {
        Ok(Some(text)) => Ok(text),
        _ => Err(PackError::MalformedToolOutput),
    }
}

/// Turns the converter's outcome for one catalog into the sidecar to write:
/// its path and its JSON text. A failed run of the converter is
/// `ToolExecutionFailed` with the converter's diagnostic text.
pub fn transcode_catalog(job: &CatalogJob, outcome: Result<String, String>) -> (r: Result<(String, String), PackError>)
    ensures
        outcome.is_err() ==> r == Err::<(String, String), PackError>(PackError::ToolExecutionFailed(outcome->Err_0)),
        outcome.is_ok() ==> (r.is_ok() == is_catalog_object(outcome->Ok_0@)),
        outcome.is_ok() && r.is_err() ==> r == Err::<(String, String), PackError>(PackError::MalformedToolOutput),
        r.is_ok() ==> r->Ok_0.0@ == sidecar_path(job.locale@),
        r.is_ok() ==> r->Ok_0.1@ == with_header(outcome->Ok_0@, job.locale@),
{
    match outcome {
        Err(diagnostic) => Err(PackError::ToolExecutionFailed(diagnostic)),
        Ok(output) => {
            let text = augment_catalog(output.as_str(), job.locale.as_str())?;
            Ok((sidecar_path_exec(job.locale.as_str()), text))
        },
    }
}

} // verus!
