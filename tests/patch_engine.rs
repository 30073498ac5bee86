use openhands_core::files::FileContents;
use openhands_core::patch::{identify_files_needed, process_patch};

fn files(entries: &[(&str, &str)]) -> FileContents {
    let mut f = FileContents::new();
    for (p, c) in entries {
        f.insert(p.to_string(), c.to_string());
    }
    f
}

#[test]
fn test_parse_add_file() {
    let patch_text = "*** Begin Patch\n*** Add File: new.txt\n+hello\n+world\n*** End Patch";
    let (_, _, results) = process_patch(patch_text, FileContents::new()).expect("Parse failed");
    assert_eq!(results.get("new.txt"), Some(&Some("hello\nworld".to_string())));
}

#[test]
fn test_parse_delete_file() {
    let orig = files(&[("old.txt", "content")]);
    let patch_text = "*** Begin Patch\n*** Delete File: old.txt\n*** End Patch";
    let (_, _, results) = process_patch(patch_text, orig).expect("Parse failed");
    assert_eq!(results.get("old.txt"), Some(&None));
}

#[test]
fn test_parse_update_file_exact() {
    let orig = files(&[("file.txt", "line1\nline2\nline3")]);
    let patch_text = "*** Begin Patch
*** Update File: file.txt
@@ -1,3 +1,3 @@
 line1
-line2
+line2_modified
 line3
*** End Patch";
    let (_, _, results) = process_patch(patch_text, orig).expect("Parse failed");
    let new_content = results.get("file.txt").unwrap().as_ref().unwrap();
    assert_eq!(new_content, "line1\nline2_modified\nline3");
}

#[test]
fn test_parse_update_file_fuzzy() {
    let orig = files(&[("file.txt", "line1  \nline2\nline3")]);
    let patch_text = "*** Begin Patch
*** Update File: file.txt
@@ -1,3 +1,3 @@
 line1
-line2
+line2_modified
 line3
*** End Patch";
    let (_, fuzz, results) = process_patch(patch_text, orig).expect("Parse failed");
    let new_content = results.get("file.txt").unwrap().as_ref().unwrap();
    assert_eq!(new_content, "line1  \nline2_modified\nline3");
    assert!(fuzz > 0);
}

#[test]
fn test_identify_files_needed() {
    let patch_text = "*** Begin Patch
*** Update File: file1.txt
...
*** Delete File: file2.txt
...
*** Add File: file3.txt
...
*** End Patch";
    let files = identify_files_needed(patch_text);
    assert!(files.contains(&"file1.txt".to_string()));
    assert!(files.contains(&"file2.txt".to_string()));
    assert!(!files.contains(&"file3.txt".to_string()));
}

#[test]
fn patch_update_scenario_exact_has_zero_fuzz() {
    let orig = files(&[("file.txt", "line1\nline2\nline3")]);
    let patch_text = "*** Begin Patch\n*** Update File: file.txt\n@@\n line1\n-line2\n+line2_modified\n line3\n*** End Patch";
    let (msg, fuzz, results) = process_patch(patch_text, orig).expect("Parse failed");
    assert_eq!(msg, "Done!");
    assert_eq!(fuzz, 0);
    assert_eq!(results.get("file.txt"), Some(&Some("line1\nline2_modified\nline3".to_string())));
}

#[test]
fn patch_fuzz_scenario_keeps_trailing_spaces() {
    let orig = files(&[("file.txt", "line1  \nline2\nline3")]);
    let patch_text = "*** Begin Patch\n*** Update File: file.txt\n@@\n line1\n-line2\n+line2_modified\n line3\n*** End Patch";
    let (_, fuzz, results) = process_patch(patch_text, orig).expect("Parse failed");
    assert_eq!(fuzz, 1);
    assert_eq!(results.get("file.txt"), Some(&Some("line1  \nline2_modified\nline3".to_string())));
}

#[test]
fn patch_trimmed_match_costs_one_hundred() {
    let orig = files(&[("a.txt", "  x\ny")]);
    let patch_text = "*** Begin Patch\n*** Update File: a.txt\n@@\n x\n-y\n+z\n*** End Patch";
    let (_, fuzz, results) = process_patch(patch_text, orig).expect("Parse failed");
    assert_eq!(fuzz, 100);
    assert_eq!(results.get("a.txt"), Some(&Some("  x\nz".to_string())));
}

#[test]
fn patch_move_deletes_source_and_writes_target() {
    let orig = files(&[("a.txt", "one\ntwo")]);
    let patch_text = "*** Begin Patch\n*** Update File: a.txt\n*** Move to: b.txt\n@@\n one\n-two\n+three\n*** End Patch";
    let (_, _, results) = process_patch(patch_text, orig).expect("Parse failed");
    assert_eq!(results.get("a.txt"), Some(&None));
    assert_eq!(results.get("b.txt"), Some(&Some("one\nthree".to_string())));
}

#[test]
fn patch_rejects_text_without_begin_marker() {
    let err = process_patch("hello", FileContents::new()).unwrap_err();
    assert_eq!(err.0, "Invalid patch text");
}

#[test]
fn patch_rejects_missing_end_marker() {
    let err = process_patch("*** Begin Patch\n*** Add File: a\n+x", FileContents::new()).unwrap_err();
    assert_eq!(err.0, "Missing End Patch");
}

#[test]
fn patch_rejects_missing_update_target() {
    let err = process_patch("*** Begin Patch\n*** Update File: nope.txt\n@@\n-a\n*** End Patch", FileContents::new()).unwrap_err();
    assert_eq!(err.0, "Update File Error: Missing File: nope.txt");
}

#[test]
fn patch_rejects_duplicate_path() {
    let orig = files(&[("a.txt", "x")]);
    let err = process_patch("*** Begin Patch\n*** Delete File: a.txt\n*** Delete File: a.txt\n*** End Patch", orig).unwrap_err();
    assert_eq!(err.0, "Delete File Error: Duplicate Path: a.txt");
}

#[test]
fn patch_rejects_unknown_line() {
    let err = process_patch("*** Begin Patch\nbogus\n*** End Patch", FileContents::new()).unwrap_err();
    assert_eq!(err.0, "Unknown Line: bogus");
}

#[test]
fn patch_rejects_unmatched_context() {
    let orig = files(&[("a.txt", "x\ny")]);
    let err = process_patch("*** Begin Patch\n*** Update File: a.txt\n@@\n q\n-y\n*** End Patch", orig).unwrap_err();
    assert_eq!(err.0, "Invalid Context 0:\nq\ny");
}

#[test]
fn patch_rejects_bad_add_line() {
    let err = process_patch("*** Begin Patch\n*** Add File: a\nx\n*** End Patch", FileContents::new()).unwrap_err();
    assert_eq!(err.0, "Invalid Add File Line: x");
}

#[test]
fn patch_end_of_file_prefers_tail_match() {
    let orig = files(&[("a.txt", "x\ny\nx\ny")]);
    let patch_text = "*** Begin Patch\n*** Update File: a.txt\n@@\n x\n-y\n+z\n*** End of File\n*** End Patch";
    let (_, fuzz, results) = process_patch(patch_text, orig).expect("Parse failed");
    assert_eq!(fuzz, 0);
    assert_eq!(results.get("a.txt"), Some(&Some("x\ny\nx\nz".to_string())));
}

#[test]
fn patch_anchor_moves_cursor() {
    let orig = files(&[("a.txt", "fn a\nbody\nfn b\nbody")]);
    let patch_text = "*** Begin Patch\n*** Update File: a.txt\n@@ fn b\n-body\n+new\n*** End Patch";
    let (_, _, results) = process_patch(patch_text, orig).expect("Parse failed");
    assert_eq!(results.get("a.txt"), Some(&Some("fn a\nbody\nfn b\nnew".to_string())));
}

#[test]
fn patch_update_then_revert_restores_original() {
    let original = "alpha\nbeta";
    let forward = "*** Begin Patch\n*** Update File: f.txt\n@@\n-alpha\n-beta\n+gamma\n*** End Patch";
    let (_, fuzz, results) = process_patch(forward, files(&[("f.txt", original)])).expect("forward failed");
    assert_eq!(fuzz, 0);
    let edited = results.get("f.txt").unwrap().clone().unwrap();
    assert_eq!(edited, "gamma");
    let back = "*** Begin Patch\n*** Update File: f.txt\n@@\n-gamma\n+alpha\n+beta\n*** End Patch";
    let (_, _, results) = process_patch(back, files(&[("f.txt", &edited)])).expect("revert failed");
    assert_eq!(results.get("f.txt"), Some(&Some(original.to_string())));
}

#[test]
fn identify_files_needed_lists_each_path_once() {
    let text = "*** Begin Patch\n*** Update File: a\n*** Delete File: a\n*** Add File: b\n*** End Patch";
    assert_eq!(identify_files_needed(text), vec!["a".to_string()]);
}

#[test]
fn patch_rejects_reused_move_target() {
    let orig = files(&[("a.txt", "x")]);
    let text = "*** Begin Patch\n*** Update File: a.txt\n*** Move to: b.txt\n@@\n-x\n+y\n*** Add File: b.txt\n+z\n*** End Patch";
    let err = process_patch(text, orig).unwrap_err();
    assert_eq!(err.0, "Add File Error: Duplicate Path: b.txt");
    let orig = files(&[("a.txt", "x"), ("c.txt", "w")]);
    let text = "*** Begin Patch\n*** Delete File: c.txt\n*** Update File: a.txt\n*** Move to: c.txt\n@@\n-x\n+y\n*** End Patch";
    let err = process_patch(text, orig).unwrap_err();
    assert_eq!(err.0, "Update File Error: Duplicate Path: c.txt");
}

#[test]
fn preflight_names_what_the_engine_looks_up() {
    let text = "*** Begin Patch\r\n*** Delete File: a.txt\r\n*** End Patch";
    let needed = identify_files_needed(text);
    assert_eq!(needed, vec!["a.txt\r".to_string()]);
    let mut orig = FileContents::new();
    for p in &needed {
        orig.insert(p.clone(), "x".to_string());
    }
    let (_, _, results) = process_patch(text, orig).expect("preflight paths must be found");
    assert_eq!(results.get("a.txt\r"), Some(&None));
}
