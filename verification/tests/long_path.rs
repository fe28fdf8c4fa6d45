use windows_platform_probes::long_path::{
    attempt_of, enabled_in, is_refusal, registry_dword, relative_path, temp_dir_refusal, utf16_len, Shape,
    ERROR_FILE_NOT_FOUND, ERROR_PATH_NOT_FOUND, MAX_PATH_CONTENT, MAX_TEMP_DIR,
};

/// What `reg query HKLM\...\FileSystem /v LongPathsEnabled` prints, verbatim
/// apart from the value, which is the part under test.
fn reg_output(value: &str) -> String {
    format!(
        "\r\nHKEY_LOCAL_MACHINE\\SYSTEM\\CurrentControlSet\\Control\\FileSystem\r\n    LongPathsEnabled    REG_DWORD    {value}\r\n\r\n"
    )
}

fn units(text: &str) -> Vec<u16> {
    text.encode_utf16().collect()
}

#[test]
fn the_registry_value_is_read_as_a_number_and_not_as_a_substring() {
    assert!(enabled_in(&reg_output("0x2")), "any nonzero value is the flag set, not just the ones spelled with a 1");
    assert!(enabled_in(&reg_output("0x1")), "0x1 is enabled");
    assert!(!enabled_in(&reg_output("0x0")), "0x0 is disabled");
}

#[test]
fn a_registry_answer_that_is_not_the_queried_value_reads_as_disabled() {
    for stdout in [
        String::new(),
        "    SomethingElse    REG_DWORD    0x1\r\n".to_string(),
        "    LongPathsEnabled    REG_SZ    0x1\r\n".to_string(),
        "    LongPathsEnabled    REG_DWORD    enabled\r\n".to_string(),
        "    LongPathsEnabled    REG_DWORD\r\n".to_string(),
    ] {
        assert!(!enabled_in(&stdout), "only the queried DWORD may report the machine as opted in: {stdout:?}");
    }
}

#[test]
fn the_registry_dword_is_parsed_as_hexadecimal() {
    assert_eq!(registry_dword(&reg_output("0x10"), "LongPathsEnabled"), Some(16));
    assert_eq!(registry_dword(&reg_output("0xFFFFFFFF"), "LongPathsEnabled"), Some(u32::MAX));
    assert_eq!(registry_dword(&reg_output("0x100000000"), "LongPathsEnabled"), None);
    assert_eq!(registry_dword(&reg_output("0x+1f"), "LongPathsEnabled"), Some(31));
    assert_eq!(registry_dword(&reg_output("0x"), "LongPathsEnabled"), None);
    assert_eq!(registry_dword(&reg_output("1"), "LongPathsEnabled"), None);
    assert_eq!(registry_dword("LongPathsEnabled REG_DWORD 0x3", "LongPathsEnabled"), Some(3));
}

#[test]
fn the_first_line_that_carries_the_value_is_the_answer() {
    let stdout = "LongPathsEnabled REG_DWORD junk\nLongPathsEnabled REG_DWORD 0x5\nLongPathsEnabled REG_DWORD 0x6\n";
    assert_eq!(registry_dword(stdout, "LongPathsEnabled"), Some(5));
}

#[test]
fn the_relative_paths_are_spelled_by_shape() {
    assert_eq!(relative_path(2, Shape::Plain), "aaaaaaaa\\aaaaaaaa\\target.txt");
    assert_eq!(relative_path(1, Shape::DotDot), "aaaaaaaa\\b\\..\\target.txt");
    assert_eq!(relative_path(2, Shape::ForwardSlash), "aaaaaaaa/aaaaaaaa/target.txt");
    assert_eq!(relative_path(0, Shape::Plain), "target.txt");
    assert_eq!(relative_path(0, Shape::DotDot), "b\\..\\target.txt");
}

#[test]
fn the_dot_dot_shape_is_five_units_longer_than_plain() {
    let plain = utf16_len(&relative_path(40, Shape::Plain));
    let dot_dot = utf16_len(&relative_path(40, Shape::DotDot));
    assert_eq!(plain, 370);
    assert_eq!(dot_dot, plain + 5);
}

#[test]
fn utf16_length_counts_pairs_for_characters_beyond_the_basic_plane() {
    assert_eq!(utf16_len("abc"), 3);
    assert_eq!(utf16_len("é"), 1);
    assert_eq!(utf16_len("a😀b"), 4);
}

#[test]
fn a_path_of_exactly_max_path_content_units_fits_and_one_more_does_not() {
    assert!(!attempt_of(Shape::Plain, MAX_PATH_CONTENT, true, 0).over_max_path);
    assert!(attempt_of(Shape::Plain, MAX_PATH_CONTENT + 1, true, 0).over_max_path);
    assert!(attempt_of(Shape::Plain, 260, false, ERROR_PATH_NOT_FOUND).over_max_path);
}

#[test]
fn only_a_not_found_failure_is_a_refusal() {
    assert!(is_refusal(&attempt_of(Shape::Plain, 300, false, ERROR_PATH_NOT_FOUND)));
    assert!(is_refusal(&attempt_of(Shape::Plain, 300, false, ERROR_FILE_NOT_FOUND)));
    assert!(!is_refusal(&attempt_of(Shape::Plain, 300, false, 5)));
    assert!(!is_refusal(&attempt_of(Shape::Plain, 300, true, ERROR_PATH_NOT_FOUND)));
}

#[test]
fn shapes_are_labelled_and_only_plain_survives_verbatim_parsing() {
    assert_eq!(Shape::Plain.label(), "plain");
    assert_eq!(Shape::DotDot.label(), "with `..`");
    assert_eq!(Shape::ForwardSlash.label(), "forward slashes");
    assert!(Shape::Plain.survives_verbatim_parsing());
    assert!(!Shape::DotDot.survives_verbatim_parsing());
    assert!(!Shape::ForwardSlash.survives_verbatim_parsing());
}

#[test]
fn an_over_long_tmp_is_refused_and_its_length_named() {
    let long = "C:\\".to_string() + &"x".repeat(MAX_TEMP_DIR);
    let refusal = temp_dir_refusal(Some(&units(&long)), None).expect("an over-long %TMP% must be refused");
    assert_eq!(
        refusal,
        "%TMP% is 203 UTF-16 units, over this probe's limit of 200. A temporary directory that long makes a longPathAware process hang rather than fail, so the run is refused instead. Point %TMP% somewhere shorter."
    );
    let fits = "C:\\".to_string() + &"x".repeat(MAX_TEMP_DIR - 3);
    assert_eq!(temp_dir_refusal(Some(&units(&fits)), None), None);
}

#[test]
fn temp_is_only_consulted_when_tmp_is_unset() {
    let long: Vec<u16> = units(&"x".repeat(MAX_TEMP_DIR + 1));
    let short = units("C:\\Temp");
    assert_eq!(temp_dir_refusal(Some(&short), Some(&long)), None);
    let refusal = temp_dir_refusal(None, Some(&long)).expect("an over-long %TEMP% must be refused");
    assert!(refusal.starts_with("%TEMP% is 201 UTF-16 units"), "got {refusal}");
    assert_eq!(temp_dir_refusal(None, None), None);
}

#[test]
fn the_refusal_length_is_counted_in_utf16_units() {
    let wide = "é".repeat(MAX_TEMP_DIR);
    assert_eq!(temp_dir_refusal(Some(&units(&wide)), None), None, "200 units fit, whatever their byte count");
}

#[test]
fn a_unc_temp_dir_is_refused_rather_than_spelled_wrong() {
    let refusal = temp_dir_refusal(Some(&units("\\\\server\\share\\temp")), None).expect("a UNC %TMP% must be refused");
    assert_eq!(
        refusal,
        "%TMP% is a UNC path. This probe builds its apparatus through `\\\\?\\` paths, which spell a UNC root differently, and it does not implement that spelling. Point %TMP% at a local directory."
    );
}

#[test]
fn a_device_namespace_temp_dir_is_refused_as_itself_and_not_as_unc() {
    for prefix in ["\\\\?\\", "\\\\.\\"] {
        let value = format!("{prefix}C:\\Temp");
        let refusal = temp_dir_refusal(Some(&units(&value)), None).expect("a device-namespace %TMP% must be refused");
        assert!(refusal.starts_with(&format!("%TMP% starts with `{prefix}`, which names the device namespace")), "got {refusal}");
        assert!(!refusal.contains("UNC"), "got {refusal}");
    }
}

#[test]
fn a_temp_dir_that_is_not_well_formed_utf16_is_refused() {
    let ill_formed: Vec<u16> = vec![0x43, 0x3a, 0x5c, 0xd800, 0x61];
    let refusal = temp_dir_refusal(Some(&ill_formed), None).expect("an ill-formed %TMP% must be refused");
    assert_eq!(
        refusal,
        "%TMP% is not well-formed UTF-16. The apparatus composes its `\\\\?\\` paths as text, which would replace the ill-formed part and name a different file. Point %TMP% somewhere expressible."
    );
    let paired: Vec<u16> = "C:\\😀".encode_utf16().collect();
    assert_eq!(temp_dir_refusal(Some(&paired), None), None);
}

#[test]
fn an_ill_formed_temp_dir_is_classified_before_its_prefix_is_read() {
    let mut value = units("\\\\server\\share");
    value.push(0xdc00);
    let refusal = temp_dir_refusal(Some(&value), None).expect("refused");
    assert!(refusal.contains("not well-formed"), "got {refusal}");
}
