use swupdate_httpd::filename::{parse_filename, Candidate, FilenameFieldLayout, ParseError};
use swupdate_httpd::text::{chars_of, find_last_dot, occurs_at_position, split_fields};

fn layout(separator: &str, image: usize, device: usize, version: usize) -> FilenameFieldLayout {
    FilenameFieldLayout {
        separator: separator.to_string(),
        image_field_index: image,
        device_field_index: device,
        version_field_index: version,
    }
}

fn std_split(s: &str, sep: &str) -> Vec<String> {
    s.split(sep).map(|f| f.to_string()).collect()
}

#[test]
fn parses_the_three_fields() {
    let got = parse_filename("app_deviceA_1.2.0.bin", &layout("_", 0, 1, 2)).unwrap();
    assert_eq!(got.image, "app");
    assert_eq!(got.device, "deviceA");
    assert_eq!(got.version, "1.2.0");
    assert_eq!(got.artifact_name, "app_deviceA_1.2.0.bin");
}

#[test]
fn fields_joined_and_extension_give_the_name_back() {
    let name = "app_deviceA_1.2.0.bin";
    let got = parse_filename(name, &layout("_", 0, 1, 2)).unwrap();
    let stem = [got.image.as_str(), got.device.as_str(), got.version.as_str()].join("_");
    assert_eq!(stem, "app_deviceA_1.2.0");
    assert_eq!(format!("{}.{}", stem, "bin"), name);
    let fields = split_fields("app_deviceA_1.2.0", "_");
    assert_eq!(fields.join("_"), "app_deviceA_1.2.0");
}

#[test]
fn no_extension_is_malformed() {
    assert_eq!(
        parse_filename("app_deviceA_1", &layout("_", 0, 1, 2)),
        Err(ParseError::MalformedFilename)
    );
    assert_eq!(parse_filename("", &layout("_", 0, 0, 0)), Err(ParseError::MalformedFilename));
}

#[test]
fn too_few_fields_is_malformed() {
    assert_eq!(
        parse_filename("app_deviceA.bin", &layout("_", 0, 1, 2)),
        Err(ParseError::MalformedFilename)
    );
    assert_eq!(
        parse_filename("app_deviceA_1.bin", &layout("_", 3, 1, 2)),
        Err(ParseError::MalformedFilename)
    );
    assert_eq!(
        parse_filename("app_deviceA_1.bin", &layout("_", 0, 3, 2)),
        Err(ParseError::MalformedFilename)
    );
    assert_eq!(
        parse_filename("app_deviceA_1.bin", &layout("_", 0, 1, usize::MAX)),
        Err(ParseError::MalformedFilename)
    );
}

#[test]
fn stem_ends_at_the_last_dot() {
    let got = parse_filename("app_dev_1.0.tar.gz", &layout("_", 0, 1, 2)).unwrap();
    assert_eq!(got.version, "1.0.tar");
    let got = parse_filename("a_b_c.", &layout("_", 0, 1, 2)).unwrap();
    assert_eq!(got.version, "c");
}

#[test]
fn a_leading_dot_leaves_an_empty_stem() {
    let got = parse_filename(".bin", &layout("_", 0, 0, 0)).unwrap();
    assert_eq!(
        got,
        Candidate {
            image: String::new(),
            device: String::new(),
            version: String::new(),
            artifact_name: ".bin".to_string(),
        }
    );
    assert_eq!(parse_filename(".bin", &layout("_", 0, 1, 0)), Err(ParseError::MalformedFilename));
}

#[test]
fn empty_fields_are_fields() {
    let got = parse_filename("__1.bin", &layout("_", 0, 1, 2)).unwrap();
    assert_eq!(got.image, "");
    assert_eq!(got.device, "");
    assert_eq!(got.version, "1");
}

#[test]
fn fields_may_share_an_index() {
    let got = parse_filename("x_y.bin", &layout("_", 1, 1, 0)).unwrap();
    assert_eq!(got.image, "y");
    assert_eq!(got.device, "y");
    assert_eq!(got.version, "x");
}

#[test]
fn split_agrees_with_the_standard_library() {
    let seps = ["_", "--", "aa", "", ".", "é", "ab", "_x_"];
    let inputs = [
        "",
        "_",
        "__",
        "a",
        "a_b",
        "a_b_c",
        "_a_",
        "a--b---c",
        "aaa",
        "aaaa",
        "aaaaa",
        "abab",
        "aab",
        "app_deviceA_1.2.0",
        "héllo_wörld_é",
        "日本_語",
        "_x_x_x_",
        "a_x_b",
    ];
    for sep in seps.iter() {
        for s in inputs.iter() {
            assert_eq!(split_fields(s, sep), std_split(s, sep), "{:?} on {:?}", s, sep);
        }
    }
}

#[test]
fn split_exact_values() {
    assert_eq!(split_fields("a_b_c", "_"), vec!["a", "b", "c"]);
    assert_eq!(split_fields("abc", "_"), vec!["abc"]);
    assert_eq!(split_fields("", "_"), vec![""]);
    assert_eq!(split_fields("aaa", "aa"), vec!["", "a"]);
    assert_eq!(split_fields("abc", ""), vec!["", "a", "b", "c", ""]);
    assert_eq!(split_fields("", ""), vec!["", ""]);
}

#[test]
fn characters_and_last_dot() {
    assert_eq!(chars_of("aé.b"), vec!['a', 'é', '.', 'b']);
    assert_eq!(find_last_dot(&chars_of("a.b.c")), Some(3));
    assert_eq!(find_last_dot(&chars_of(".")), Some(0));
    assert_eq!(find_last_dot(&chars_of("abc")), None);
    assert_eq!(find_last_dot(&chars_of("")), None);
}

#[test]
fn occurrence_at_a_position() {
    let s = chars_of("a--b");
    let sep = chars_of("--");
    assert!(!occurs_at_position(&s, &sep, 0));
    assert!(occurs_at_position(&s, &sep, 1));
    assert!(!occurs_at_position(&s, &sep, 2));
    assert!(!occurs_at_position(&s, &sep, 3));
    assert!(!occurs_at_position(&s, &sep, 4));
    assert!(!occurs_at_position(&s, &sep, usize::MAX));
    assert!(occurs_at_position(&s, &chars_of(""), 4));
    assert!(!occurs_at_position(&s, &chars_of(""), 5));
    assert!(!occurs_at_position(&chars_of("-"), &sep, 0));
}

#[test]
fn multibyte_names_are_split_by_character() {
    let got = parse_filename("äpp→gerät→1.0.bin", &layout("→", 0, 1, 2)).unwrap();
    assert_eq!(got.image, "äpp");
    assert_eq!(got.device, "gerät");
    assert_eq!(got.version, "1.0");
}
