use hoolamike::remap::{join_with_delimiter, replace_all, RemappingContext};

fn chars(s: &str) -> Vec<char> {
    s.chars().collect()
}

fn string(v: Vec<char>) -> String {
    v.into_iter().collect()
}

#[test]
fn replace_all_basic() {
    let out = replace_all(&chars("one two two three"), &chars("two"), &chars("2"));
    assert_eq!(string(out), "one 2 2 three");
}

#[test]
fn replace_all_scans_left_to_right_without_rescanning() {
    // Replacements are never themselves reexamined.
    let out = replace_all(&chars("aaa"), &chars("aa"), &chars("a"));
    assert_eq!(string(out), "aa");
    let out = replace_all(&chars("abab"), &chars("ab"), &chars("ba"));
    assert_eq!(string(out), "baba");
}

#[test]
fn replace_all_no_occurrence_is_identity() {
    let out = replace_all(&chars("untouched"), &chars("xyz"), &chars("!"));
    assert_eq!(string(out), "untouched");
}

#[test]
fn remap_substitutes_every_marker() {
    let ctx = RemappingContext {
        game_folder: String::from("Games\\\\Skyrim"),
        output_directory: String::from("Install\\\\List"),
        downloads_directory: String::from("Install\\\\downloads"),
    };
    let data = "gamePath={--||GAME_PATH_MAGIC_FORWARD||--}\n\
mods={--||MO2_PATH_MAGIC_BACK||--}\n\
mods2={--||MO2_PATH_MAGIC_DOUBLE_BACK||--}\n\
dl={--||DOWNLOAD_PATH_MAGIC_FORWARD||--}";
    let out = ctx.remap_file_contents(data);
    assert_eq!(
        out,
        "gamePath=Games\\\\Skyrim\nmods=Install\\\\List\nmods2=Install\\\\List\ndl=Install\\\\downloads"
    );
}

#[test]
fn remap_leaves_plain_text_alone() {
    let ctx = RemappingContext {
        game_folder: String::from("G"),
        output_directory: String::from("O"),
        downloads_directory: String::from("D"),
    };
    assert_eq!(ctx.remap_file_contents("no markers here"), "no markers here");
}

#[test]
fn join_with_delimiter_interleaves() {
    let segments = vec![String::from("C:"), String::from("Games"), String::from("Skyrim")];
    assert_eq!(join_with_delimiter(&segments, "\\\\"), "C:\\\\Games\\\\Skyrim");
    assert_eq!(join_with_delimiter(&vec![String::from("solo")], "/"), "solo");
    assert_eq!(join_with_delimiter(&vec![], "/"), "");
}
