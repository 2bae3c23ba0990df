use playlist_fetch::command::{count_args, formats_args, segment_args, single_args};
use playlist_fetch::partition::Range;

#[test]
fn segment_command_embeds_range_and_flat_template() {
    let args = segment_args(Range::new(4, 123), "18", false, "https://example.org/list");
    let expected = vec![
        "yt-dlp", "--color", "never", "--write-auto-subs", "--embed-subs", "-f", "18",
        "--restrict-filenames", "-c", "--skip-unavailable-fragments", "--ignore-errors", "-I",
        "4:123", "-o", "%(playlist_index)sof%(playlist_count)s-%(title)s.%(ext)s",
        "https://example.org/list",
    ];
    assert_eq!(args, expected);
}

#[test]
fn segment_command_with_folders() {
    let args = segment_args(Range::new(0, 0), "22", true, "u");
    assert_eq!(args[12], "0:0");
    assert_eq!(
        args[14],
        "%(playlist_index)sof%(playlist_count)s-%(title)s/%(playlist_index)sof%(playlist_count)s-%(title)s.%(ext)s"
    );
}

#[test]
fn count_command() {
    assert_eq!(
        count_args("u"),
        vec!["yt-dlp", "--color", "never", "-I", "0", "-O", "playlist:playlist_count", "u"]
    );
}

#[test]
fn format_listing_commands() {
    assert_eq!(formats_args("u", true), vec!["yt-dlp", "--color", "never", "-I", "1", "-F", "u"]);
    assert_eq!(formats_args("u", false), vec!["yt-dlp", "--color", "never", "-F", "u"]);
}

#[test]
fn single_item_command() {
    let args = single_args("18", "u");
    assert_eq!(args.len(), 14);
    assert_eq!(args[6], "18");
    assert_eq!(args[12], "%(title)s.%(ext)s");
    assert_eq!(args[13], "u");
}
