use package_kpz::archive::{create_zip, serialize_tree, ENTRY_MODE};
use package_kpz::catalog::{
    augment_catalog, catalog_locale, convert_translations, plan_catalogs, sidecar_path_exec, transcode_catalog,
    CatalogJob, DirEntry,
};
use package_kpz::copier::{copy_dir_recursive, copy_files, CopyOp};
use package_kpz::error::PackError;
use package_kpz::manifest::{patch_manifest, patch_manifest_at, substitute_strings, version_of};
use package_kpz::pipeline::{advance, next_action, Action, Stage};
use package_kpz::tree::{archive_entries, join_path_exec, Node};
use std::io::Read;

fn file(name: &str, data: &[u8]) -> Node {
    Node::File { name: name.to_string(), data: data.to_vec() }
}

fn dir(name: &str, children: Vec<Node>) -> Node {
    Node::Dir { name: name.to_string(), children }
}

fn sample_tree() -> Vec<Node> {
    vec![
        dir("Koha", vec![file("Plugin.pm", b"package X;"), dir("Plugin", vec![file("a.tt", b"<p>")])]),
        file("top.txt", b"top"),
    ]
}

#[test]
fn join_uses_forward_slash() {
    assert_eq!(join_path_exec("", "a"), "a");
    assert_eq!(join_path_exec("dist", "Koha"), "dist/Koha");
}

#[test]
fn entries_are_depth_first_with_directories_first() {
    let entries = archive_entries(&sample_tree());
    let paths: Vec<(String, bool)> = entries.iter().map(|e| (e.path.clone(), e.is_dir)).collect();
    assert_eq!(
        paths,
        vec![
            ("Koha/".to_string(), true),
            ("Koha/Plugin.pm".to_string(), false),
            ("Koha/Plugin/".to_string(), true),
            ("Koha/Plugin/a.tt".to_string(), false),
            ("top.txt".to_string(), false),
        ]
    );
    assert_eq!(entries[3].data, b"<p>".to_vec());
    assert!(entries[0].data.is_empty());
}

#[test]
fn missing_source_is_invalid_input() {
    let r = copy_files(&None);
    assert!(matches!(r, Err(PackError::InvalidInput)));
}

#[test]
fn copy_mirrors_every_file() {
    let tree = vec![file("Plugin.pm", b"x"), dir("lib", vec![file("m.pm", b"y")])];
    let ops = copy_files(&Some(tree)).unwrap();
    let mut copies = Vec::new();
    let mut dirs = Vec::new();
    for op in &ops {
        match op {
            CopyOp::CreateDir { path } => dirs.push(path.clone()),
            CopyOp::CopyFile { from, to } => copies.push((from.clone(), to.clone())),
        }
    }
    assert_eq!(dirs, vec!["dist/Koha".to_string(), "dist/Koha/lib/".to_string()]);
    assert_eq!(
        copies,
        vec![
            ("Koha/Plugin.pm".to_string(), "dist/Koha/Plugin.pm".to_string()),
            ("Koha/lib/m.pm".to_string(), "dist/Koha/lib/m.pm".to_string()),
        ]
    );
}

#[test]
fn copy_of_empty_directory_creates_only_root() {
    let ops = copy_dir_recursive("src", "dst", &Some(Vec::new())).unwrap();
    assert_eq!(ops.len(), 1);
    assert!(matches!(&ops[0], CopyOp::CreateDir { path } if path == "dst"));
}

#[test]
fn manifest_scenario_version_and_date() {
    let text = "our $VERSION = '{VERSION}';\nmy $date = '1900-01-01'; # {VERSION} 1900-01-01";
    let version = version_of("{\"version\": \"1.2.3\"}").unwrap();
    let out = substitute_strings(text, &version, "2024-05-06").unwrap();
    assert_eq!(out, "our $VERSION = '1.2.3';\nmy $date = '2024-05-06'; # 1.2.3 2024-05-06");
    assert!(!out.contains("{VERSION}"));
    assert!(!out.contains("1900-01-01"));
}

#[test]
fn manifest_without_placeholders_is_unchanged() {
    let text = "nothing to see {VERSION 1900-01-02";
    assert_eq!(substitute_strings(text, "9.9", "2000-01-01").unwrap(), text);
}

#[test]
fn manifest_version_with_dollar_is_literal() {
    assert_eq!(substitute_strings("v={VERSION}", "$1x", "d").unwrap(), "v=$1x");
}

#[test]
fn manifest_empty_version_removes_placeholder() {
    assert_eq!(substitute_strings("[{VERSION}{VERSION}]", "", "d").unwrap(), "[]");
}

#[test]
fn manifest_today_is_iso_date() {
    let out = patch_manifest("1900-01-01", "1").unwrap();
    assert_eq!(out.len(), 10);
    let b = out.as_bytes();
    assert_eq!(b[4], b'-');
    assert_eq!(b[7], b'-');
    assert!(out != "1900-01-01");
}

#[test]
fn version_from_metadata() {
    assert_eq!(version_of("{\"version\": \"1.2.3\"}").unwrap(), "1.2.3");
    assert_eq!(version_of("{\"name\": \"x\"}").unwrap(), "");
    assert_eq!(version_of("{\"version\": 3}").unwrap(), "");
    assert!(matches!(version_of("not json"), Err(PackError::Configuration)));
}

#[test]
fn catalog_names() {
    assert_eq!(catalog_locale("de-DE.po"), Some("de-DE".to_string()));
    assert_eq!(catalog_locale("a.b.po"), Some("a.b".to_string()));
    assert_eq!(catalog_locale(".po"), None);
    assert_eq!(catalog_locale("readme.txt"), None);
    assert_eq!(catalog_locale("x.pot"), None);
}

#[test]
fn only_catalog_files_are_planned() {
    let entries = vec![
        DirEntry { name: "de-DE.po".to_string(), is_file: true },
        DirEntry { name: "README.md".to_string(), is_file: true },
        DirEntry { name: "fr-FR.po".to_string(), is_file: true },
        DirEntry { name: "old.po".to_string(), is_file: false },
        DirEntry { name: "template.pot".to_string(), is_file: true },
    ];
    let jobs = plan_catalogs(&entries);
    let locales: Vec<String> = jobs.iter().map(|j| j.locale.clone()).collect();
    assert_eq!(locales, vec!["de-DE".to_string(), "fr-FR".to_string()]);
    assert_eq!(jobs[1].name, "fr-FR.po");
}

#[test]
fn no_translations_directory_is_a_no_op() {
    assert!(convert_translations(&None).is_empty());
}

#[test]
fn sidecar_goes_under_locale_dir() {
    assert_eq!(sidecar_path_exec("de-DE"), "dist/locale/de-DE.json");
}

#[test]
fn catalog_gets_locale_header() {
    let out = augment_catalog("{\"hello\": \"hallo\"}", "de-DE").unwrap();
    let v: serde_json::Value = serde_json::from_str(&out).unwrap();
    assert_eq!(v["hello"], "hallo");
    assert_eq!(v[""]["language"], "de-DE");
    assert_eq!(v[""]["plural-forms"], "nplurals=2; plural=n>1");
}

#[test]
fn converter_output_not_an_object_is_malformed() {
    assert!(matches!(augment_catalog("[1, 2]", "de"), Err(PackError::MalformedToolOutput)));
    assert!(matches!(augment_catalog("{oops", "de"), Err(PackError::MalformedToolOutput)));
}

#[test]
fn converter_failure_aborts_the_run() {
    let job = CatalogJob { name: "de.po".to_string(), locale: "de".to_string() };
    let r = transcode_catalog(&job, Err("po2json: bad input".to_string()));
    assert_eq!(r, Err(PackError::ToolExecutionFailed("po2json: bad input".to_string())));
    let stage = advance(Stage::FilesCopied, true, Err(PackError::ToolExecutionFailed("bad".to_string())));
    assert!(matches!(stage, Stage::Failed(PackError::ToolExecutionFailed(_))));
    assert_eq!(next_action(&stage, true), Action::Stop);
}

#[test]
fn converter_success_gives_sidecar() {
    let job = CatalogJob { name: "de.po".to_string(), locale: "de".to_string() };
    let (path, text) = transcode_catalog(&job, Ok("{}".to_string())).unwrap();
    assert_eq!(path, "dist/locale/de.json");
    assert!(text.contains("\"language\":\"de\""));
}

#[test]
fn pipeline_runs_in_order() {
    let mut stage = Stage::Init;
    let mut actions = Vec::new();
    loop {
        let a = next_action(&stage, false);
        if a == Action::Stop {
            break;
        }
        actions.push(a);
        stage = advance(stage, false, Ok(()));
    }
    assert_eq!(
        actions,
        vec![Action::CreateStaging, Action::CopyFiles, Action::PatchManifest, Action::WriteArchive, Action::RemoveStaging]
    );
    assert!(matches!(stage, Stage::CleanedUp));
    assert_eq!(next_action(&Stage::FilesCopied, true), Action::ConvertTranslations);
}

#[test]
fn failure_skips_cleanup() {
    let stage = advance(Stage::ManifestPatched, false, Err(PackError::ArchiveWrite));
    assert!(matches!(stage, Stage::Failed(PackError::ArchiveWrite)));
    let again = advance(stage, false, Ok(()));
    assert!(matches!(again, Stage::Failed(PackError::ArchiveWrite)));
}

#[test]
fn archive_name_and_round_trip() {
    let (name, bytes) = create_zip("koha-plugin-x", "1.2.3", &sample_tree()).unwrap();
    assert_eq!(name, "koha-plugin-x-v1.2.3.kpz");
    let mut archive = zip::ZipArchive::new(std::io::Cursor::new(bytes)).unwrap();
    let mut seen = Vec::new();
    for i in 0..archive.len() {
        let mut f = archive.by_index(i).unwrap();
        assert_eq!(f.compression(), zip::CompressionMethod::Stored);
        assert_eq!(f.unix_mode().unwrap() & 0o777, 0o755);
        let mut data = Vec::new();
        f.read_to_end(&mut data).unwrap();
        seen.push((f.name().to_string(), f.is_dir(), data));
    }
    assert_eq!(
        seen,
        vec![
            ("Koha/".to_string(), true, Vec::new()),
            ("Koha/Plugin.pm".to_string(), false, b"package X;".to_vec()),
            ("Koha/Plugin/".to_string(), true, Vec::new()),
            ("Koha/Plugin/a.tt".to_string(), false, b"<p>".to_vec()),
            ("top.txt".to_string(), false, b"top".to_vec()),
        ]
    );
    assert_eq!(ENTRY_MODE, 0o755);
}

#[test]
fn archive_contents_do_not_depend_on_listing_order() {
    let a = vec![file("a", b"1"), file("b", b"2")];
    let b = vec![file("b", b"2"), file("a", b"1")];
    let read = |bytes: Vec<u8>| {
        let mut archive = zip::ZipArchive::new(std::io::Cursor::new(bytes)).unwrap();
        let mut out = Vec::new();
        for i in 0..archive.len() {
            let mut f = archive.by_index(i).unwrap();
            let mut data = Vec::new();
            f.read_to_end(&mut data).unwrap();
            out.push((f.name().to_string(), data));
        }
        out.sort();
        out
    };
    assert_eq!(read(serialize_tree(&a).unwrap()), read(serialize_tree(&b).unwrap()));
}

#[test]
fn empty_tree_gives_empty_archive() {
    let bytes = serialize_tree(&Vec::new()).unwrap();
    let archive = zip::ZipArchive::new(std::io::Cursor::new(bytes)).unwrap();
    assert_eq!(archive.len(), 0);
}

#[test]
fn every_placeholder_is_replaced() {
    let text = "{VERSION}-{VERSION}-x{VERSION}";
    let out = substitute_strings(text, "2.0.1", "2030-12-31").unwrap();
    assert_eq!(out.matches("{VERSION}").count(), 0);
    assert_eq!(out.matches("2.0.1").count(), 3);
    assert_eq!(out, "2.0.1-2.0.1-x2.0.1");
}

#[test]
fn empty_manifest_stays_empty() {
    assert_eq!(substitute_strings("", "1.0.0", "2030-12-31").unwrap(), "");
}

#[test]
fn sidecars_are_one_per_catalog() {
    let entries = vec![
        DirEntry { name: "de.po".to_string(), is_file: true },
        DirEntry { name: "fr.po".to_string(), is_file: true },
        DirEntry { name: "notes.txt".to_string(), is_file: true },
        DirEntry { name: "es.po".to_string(), is_file: true },
    ];
    let jobs = plan_catalogs(&entries);
    let mut paths: Vec<String> = jobs.iter().map(|j| sidecar_path_exec(&j.locale)).collect();
    paths.sort();
    paths.dedup();
    assert_eq!(paths.len(), 3);
    assert_eq!(paths[0], "dist/locale/de.json");
}

#[test]
fn converter_output_array_is_malformed() {
    let job = CatalogJob { name: "de.po".to_string(), locale: "de".to_string() };
    let r = transcode_catalog(&job, Ok("[\"x\"]".to_string()));
    assert_eq!(r, Err(PackError::MalformedToolOutput));
}

#[test]
fn patching_twice_gives_the_same_text() {
    let text = "v {VERSION} d 1900-01-01";
    let once = substitute_strings(text, "1.2.3", "2026-10-19").unwrap();
    let twice = substitute_strings(&once, "1.2.3", "2026-10-19").unwrap();
    assert_eq!(once, "v 1.2.3 d 2026-10-19");
    assert_eq!(once, twice);
}

#[test]
fn manifest_date_from_seconds() {
    assert_eq!(patch_manifest_at("d=1900-01-01", "1", 0).unwrap(), "d=1970-01-01");
    assert_eq!(patch_manifest_at("{VERSION} 1900-01-01", "1.2.3", 1_781_827_199).unwrap(), "1.2.3 2026-06-18");
    assert_eq!(patch_manifest_at("x", "1", 253_402_300_799).unwrap(), "x");
}
