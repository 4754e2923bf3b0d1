use trackfetch::dispatch::{helper_args, helper_of, output_file_name, UsageError};

#[test]
fn file_name_joins_artists() {
    let artists = vec!["A".to_string(), "B".to_string()];
    assert_eq!(output_file_name(&artists, "Song"), "A, B - Song.ogg");
}

#[test]
fn file_name_single_artist() {
    assert_eq!(output_file_name(&vec!["Artist".to_string()], "Title"), "Artist - Title.ogg");
}

#[test]
fn file_name_without_artists() {
    assert_eq!(output_file_name(&Vec::new(), "Title"), " - Title.ogg");
}

#[test]
fn helper_arguments_in_order() {
    let artists = vec!["X".to_string(), "Y".to_string()];
    assert_eq!(
        helper_args("id62", "Song", "Album", "2001-02-03", &artists),
        vec!["id62", "Song", "Album", "2001-02-03", "X", "Y"]
    );
}

#[test]
fn helper_is_optional() {
    assert_eq!(helper_of(&vec!["prog".to_string()]), Ok(None));
    assert_eq!(
        helper_of(&vec!["prog".to_string(), "./helper.sh".to_string()]),
        Ok(Some("./helper.sh".to_string()))
    );
    assert_eq!(
        helper_of(&vec!["prog".to_string(), "a".to_string(), "b".to_string()]),
        Err(UsageError::TooManyArguments)
    );
}
