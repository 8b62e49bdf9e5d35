use asset_optimizer::catalog::{
    classify, classify_extension, discover_assets, output_path_for, target_extension_of,
    AssetKind, DiscoveryError,
};
use asset_optimizer::path::{extension_of, find_last_dot, with_extension, AssetPath};
use asset_optimizer::text::to_ascii_lower;
use std::path::{Path, PathBuf};

fn path(parts: &[&str]) -> AssetPath {
    AssetPath::new(parts.iter().map(|p| p.to_string()).collect())
}

#[test]
fn recognized_files_become_jobs_and_others_are_skipped() {
    let files = vec![path(&["a", "b.mp4"]), path(&["a", "c.png"]), path(&["a", "d.txt"])];
    let jobs = discover_assets(&path(&[]), &path(&["out"]), &files).unwrap();
    assert_eq!(jobs.len(), 2);
    assert_eq!(jobs[0].input_path, path(&["a", "b.mp4"]));
    assert_eq!(jobs[0].output_path, path(&["out", "a", "b.webm"]));
    assert_eq!(jobs[0].kind, AssetKind::Video);
    assert_eq!(jobs[1].input_path, path(&["a", "c.png"]));
    assert_eq!(jobs[1].output_path, path(&["out", "a", "c.webp"]));
    assert_eq!(jobs[1].kind, AssetKind::Image);
}

#[test]
fn output_mirrors_the_place_under_the_input_root() {
    let root = path(&["public", "assets"]);
    let files = vec![
        path(&["public", "assets", "hero.png"]),
        path(&["public", "assets", "clips", "intro", "take.1.mp4"]),
    ];
    let jobs = discover_assets(&root, &path(&["public", "assets", "optimized"]), &files).unwrap();
    assert_eq!(jobs[0].output_path, path(&["public", "assets", "optimized", "hero.webp"]));
    assert_eq!(
        jobs[1].output_path,
        path(&["public", "assets", "optimized", "clips", "intro", "take.1.webm"])
    );
}

#[test]
fn jobs_keep_the_order_of_the_files() {
    let files = vec![
        path(&["in", "3.png"]),
        path(&["in", "skip.me"]),
        path(&["in", "1.mp4"]),
        path(&["in", "2.png"]),
    ];
    let jobs = discover_assets(&path(&["in"]), &path(&["out"]), &files).unwrap();
    let inputs: Vec<String> = jobs.iter().map(|j| j.input_path.to_text()).collect();
    assert_eq!(inputs, vec!["in/3.png", "in/1.mp4", "in/2.png"]);
}

#[test]
fn a_converted_file_outside_the_input_root_is_an_error() {
    let files = vec![
        path(&["in", "a.png"]),
        path(&["elsewhere", "notes.txt"]),
        path(&["elsewhere", "b.mp4"]),
        path(&["other", "c.mp4"]),
    ];
    let result = discover_assets(&path(&["in"]), &path(&["out"]), &files);
    assert_eq!(result, Err(DiscoveryError::OutsideInputRoot { file: 2 }));
}

#[test]
fn a_longer_name_is_not_under_a_shorter_root() {
    let files = vec![path(&["input", "a.png"])];
    let result = discover_assets(&path(&["in"]), &path(&["out"]), &files);
    assert_eq!(result, Err(DiscoveryError::OutsideInputRoot { file: 0 }));
}

#[test]
fn no_files_give_an_empty_catalog() {
    let jobs = discover_assets(&path(&["in"]), &path(&["out"]), &Vec::new()).unwrap();
    assert!(jobs.is_empty());
}

#[test]
fn only_unrecognized_files_give_an_empty_catalog() {
    let files = vec![path(&["in", "a.txt"]), path(&["in", "mp4"]), path(&["in", ".png"])];
    let jobs = discover_assets(&path(&["in"]), &path(&["out"]), &files).unwrap();
    assert!(jobs.is_empty());
}

#[test]
fn the_input_root_itself_maps_to_the_output_root() {
    let files = vec![path(&["movie.mp4"])];
    let jobs = discover_assets(&path(&["movie.mp4"]), &path(&["out"]), &files).unwrap();
    assert_eq!(jobs.len(), 1);
    assert_eq!(jobs[0].output_path, path(&["out"]));
}

#[test]
fn extensions_are_read_without_regard_to_case() {
    assert_eq!(classify_extension("mp4"), Some(AssetKind::Video));
    assert_eq!(classify_extension("MP4"), Some(AssetKind::Video));
    assert_eq!(classify_extension("Mp4"), Some(AssetKind::Video));
    assert_eq!(classify_extension("png"), Some(AssetKind::Image));
    assert_eq!(classify_extension("PnG"), Some(AssetKind::Image));
}

#[test]
fn other_extensions_are_not_recognized() {
    assert_eq!(classify_extension(""), None);
    assert_eq!(classify_extension("mp"), None);
    assert_eq!(classify_extension("mp44"), None);
    assert_eq!(classify_extension("webm"), None);
    assert_eq!(classify_extension("jpg"), None);
    assert_eq!(classify_extension("pn\u{261}"), None);
    assert_eq!(classify_extension("\u{212a}p4"), None);
}

#[test]
fn classify_reads_the_last_component_only() {
    assert_eq!(classify(&path(&["a.mp4", "b.png"])), Some(AssetKind::Image));
    assert_eq!(classify(&path(&["a.mp4", "readme"])), None);
    assert_eq!(classify(&path(&[])), None);
    assert_eq!(classify(&path(&["dir", ".mp4"])), None);
    assert_eq!(classify(&path(&["dir", "..mp4"])), Some(AssetKind::Video));
    assert_eq!(classify(&path(&["dir", "x.tar.PNG"])), Some(AssetKind::Image));
}

#[test]
fn target_extensions() {
    assert_eq!(target_extension_of(AssetKind::Video), "webm");
    assert_eq!(target_extension_of(AssetKind::Image), "webp");
}

#[test]
fn output_path_replaces_only_the_last_extension() {
    let out = output_path_for(&path(&["o"]), &path(&["d.mp4", "x.y.mp4"]), AssetKind::Video);
    assert_eq!(out, path(&["o", "d.mp4", "x.y.webm"]));
    let out = output_path_for(&path(&[]), &path(&["x.PNG"]), AssetKind::Image);
    assert_eq!(out, path(&["x.webp"]));
}

#[test]
fn distinct_inputs_get_distinct_outputs() {
    let files = vec![
        path(&["in", "a.mp4"]),
        path(&["in", "a.png"]),
        path(&["in", "a", "a.mp4"]),
        path(&["in", "a.b.mp4"]),
        path(&["in", "b", "a.mp4"]),
        path(&["in", "a.mp4.png"]),
    ];
    let jobs = discover_assets(&path(&["in"]), &path(&["out"]), &files).unwrap();
    assert_eq!(jobs.len(), files.len());
    for i in 0..jobs.len() {
        for k in (i + 1)..jobs.len() {
            assert_ne!(jobs[i].output_path, jobs[k].output_path);
        }
    }
}

#[test]
fn names_that_differ_only_in_extension_case_share_an_output() {
    let files = vec![path(&["in", "clip.mp4"]), path(&["in", "clip.MP4"])];
    let jobs = discover_assets(&path(&["in"]), &path(&["out"]), &files).unwrap();
    assert_eq!(jobs.len(), 2);
    assert_ne!(jobs[0].input_path, jobs[1].input_path);
    assert_eq!(jobs[0].output_path, jobs[1].output_path);
}

#[test]
fn last_dot_and_extension() {
    let chars: Vec<char> = "a.b.c".chars().collect();
    assert_eq!(find_last_dot(&chars), Some(3));
    let chars: Vec<char> = "abc".chars().collect();
    assert_eq!(find_last_dot(&chars), None);
    assert_eq!(find_last_dot(&Vec::new()), None);
    assert_eq!(extension_of("a.b.c"), Some("c".to_string()));
    assert_eq!(extension_of("name."), Some("".to_string()));
    assert_eq!(extension_of(".hidden"), None);
    assert_eq!(extension_of("plain"), None);
    assert_eq!(extension_of(""), None);
    assert_eq!(extension_of(".."), Some("".to_string()));
}

#[test]
fn with_extension_replaces_or_adds() {
    assert_eq!(with_extension("a.mp4", "webm"), "a.webm");
    assert_eq!(with_extension("a.b.mp4", "webm"), "a.b.webm");
    assert_eq!(with_extension("plain", "webp"), "plain.webp");
    assert_eq!(with_extension(".hidden", "webp"), ".hidden.webp");
    assert_eq!(with_extension("\u{e9}t\u{e9}.png", "webp"), "\u{e9}t\u{e9}.webp");
    assert_eq!(with_extension("..a", "webm"), "..webm");
}

#[test]
fn only_ascii_capitals_fold_to_the_letters_of_the_source_extensions() {
    for code in 0..=0x10ffffu32 {
        let Some(c) = char::from_u32(code) else { continue };
        let lower: String = c.to_lowercase().collect();
        if lower.chars().any(|x| "mp4ng".contains(x)) {
            assert!(c.is_ascii(), "{code:x}");
            assert_eq!(lower, to_ascii_lower(c).to_string(), "{code:x}");
        }
    }
}

#[test]
fn classification_agrees_with_full_case_folding() {
    let samples = [
        "mp4", "MP4", "mP4", "Mp4", "png", "PNG", "pNg", "jpg", "", "mp", "mp44", "m p4",
        "\u{212a}p4", "\u{3a3}", "pn\u{47}", "\u{130}", "PN\u{261}", "webm", "WEBP",
    ];
    for ext in samples {
        let expected = match ext.to_lowercase().as_str() {
            "mp4" => Some(AssetKind::Video),
            "png" => Some(AssetKind::Image),
            _ => None,
        };
        assert_eq!(classify_extension(ext), expected, "{ext}");
    }
}

const NAMES: [&str; 22] = [
    "a.mp4", "a.b.mp4", "a", ".a", ".a.png", "a.", "a..", "..a", "a..png", "a.tar.gz", "...",
    ".mp4", "mp4", "x.MP4", "\u{e9}.png", "a b.c d", "a.p n g", "-.png", "a.\u{e9}", "a.b.c.d.e",
    "name.with.many.dots.", ".hidden.tar.gz",
];

#[test]
fn extensions_are_those_of_the_standard_library() {
    for name in NAMES {
        let expected = Path::new(name).extension().map(|e| e.to_str().unwrap().to_string());
        assert_eq!(extension_of(name), expected, "{name}");
    }
}

/// A name made of two dots and an extension is left out: cut before its
/// extension it reads as the parent directory, which the standard library
/// gives no extension.
#[test]
fn extensions_are_replaced_as_the_standard_library_does() {
    for name in NAMES {
        if name == "..a" {
            continue;
        }
        for ext in ["webm", "webp", "x"] {
            let expected = Path::new(name).with_extension(ext);
            assert_eq!(with_extension(name, ext), expected.to_str().unwrap(), "{name} {ext}");
        }
    }
}

#[test]
fn texts_are_those_of_the_standard_library() {
    for text in ["a/b/c.mp4", "a", "/", "/a", "/usr/share/x.png", "./a/b", "../a", "a/../b", ""] {
        let parts: Vec<String> =
            Path::new(text).components().map(|c| c.as_os_str().to_str().unwrap().to_string()).collect();
        let rebuilt: PathBuf = parts.iter().collect();
        assert_eq!(AssetPath::new(parts).to_text(), rebuilt.to_str().unwrap(), "{text}");
    }
}

#[test]
fn outputs_are_those_of_joining_and_renaming() {
    let cases = [
        ("public/assets", "public/assets/optimized", "public/assets/a/b.mp4"),
        ("in", "out", "in/x.PNG"),
        (".", "out", "./deep/er/file.name.mp4"),
        ("/srv/in", "/srv/out", "/srv/in/a.png"),
        ("in", "../out", "in/..hidden.mp4"),
        ("a/b", "", "a/b/c/d.png"),
    ];
    for (root, out, file) in cases {
        let parts = |text: &str| -> AssetPath {
            AssetPath::new(
                Path::new(text)
                    .components()
                    .map(|c| c.as_os_str().to_str().unwrap().to_string())
                    .collect(),
            )
        };
        let jobs = discover_assets(&parts(root), &parts(out), &vec![parts(file)]).unwrap();
        assert_eq!(jobs.len(), 1, "{file}");
        let target = target_extension_of(jobs[0].kind);
        let relative = Path::new(file).strip_prefix(root).unwrap();
        let expected = Path::new(out).join(relative).with_extension(target);
        let output: PathBuf = jobs[0].output_path.components.iter().collect();
        assert_eq!(output, expected, "{file}");
        let input: PathBuf = jobs[0].input_path.components.iter().collect();
        assert_eq!(input, Path::new(file), "{file}");
    }
}
