use vstd::prelude::*;
use vstd::string::*;
use crate::partition::Range;

verus! {

/// The character of a decimal digit `d < 10`.
pub open spec fn digit_char(d: nat) -> char {
    (('0' as nat) + d) as char
}

/// Decimal notation of `n`, without sign or leading zeros.
pub open spec fn decimal(n: nat) -> Seq<char>
    decreases n,
{
    if n < 10 {
        seq![digit_char(n)]
    } else {
        decimal(n / 10).push(digit_char(n % 10))
    }
}

/// Relies on `usize`'s `Display` through `to_string`: the decimal notation.
#[verifier::external_body]
fn decimal_text(n: usize) -> (r: String)
    ensures
        r@ == decimal(n as nat),
{
    n.to_string()
}

/// The name of the external tool.
pub open spec fn tool() -> Seq<char> {
    "yt-dlp"@
}

/// Output template when every item gets a folder of its own.
pub open spec fn folder_template() -> Seq<char> {
    "%(playlist_index)sof%(playlist_count)s-%(title)s/%(playlist_index)sof%(playlist_count)s-%(title)s.%(ext)s"@
}

/// Output template when all items go to one folder.
pub open spec fn flat_template() -> Seq<char> {
    "%(playlist_index)sof%(playlist_count)s-%(title)s.%(ext)s"@
}

/// The `start:end` selector of a segment.
pub open spec fn range_selector(segment: Range) -> Seq<char> {
    decimal(segment.start as nat) + seq![':'] + decimal(segment.end as nat)
}

/// The command that fetches one segment of a collection.
pub open spec fn segment_command(
    segment: Range,
    format: Seq<char>,
    separate_folders: bool,
    url: Seq<char>,
) -> Seq<Seq<char>> {
    seq![
        tool(),
        "--color"@,
        "never"@,
        "--write-auto-subs"@,
        "--embed-subs"@,
        "-f"@,
        format,
        "--restrict-filenames"@,
        "-c"@,
        "--skip-unavailable-fragments"@,
        "--ignore-errors"@,
        "-I"@,
        range_selector(segment),
        "-o"@,
        if separate_folders { folder_template() } else { flat_template() },
        url,
    ]
}

/// The views of a list of arguments.
pub open spec fn views(args: Seq<String>) -> Seq<Seq<char>> {
    args.map_values(|a: String| a@)
}

fn text(s: &str) -> (r: String)
    ensures
        r@ == s@,
{
    String::from_str(s)
}

/// The arguments, executable first, that fetch `segment` of the collection
/// at `url` in `format`, named after the output template chosen by
/// `separate_folders`.
pub fn segment_args(segment: Range, format: &str, separate_folders: bool, url: &str) -> (r: Vec<String>)
    ensures
        views(r@) == segment_command(segment, format@, separate_folders, url@),
{
    let mut selector = decimal_text(segment.start);
    selector.append(":");
    let end = decimal_text(segment.end);
    selector.append(end.as_str());
    let template = if separate_folders {
        text("%(playlist_index)sof%(playlist_count)s-%(title)s/%(playlist_index)sof%(playlist_count)s-%(title)s.%(ext)s")
    } else {
        text("%(playlist_index)sof%(playlist_count)s-%(title)s.%(ext)s")
    };
    let args = vec![
        text("yt-dlp"),
        text("--color"),
        text("never"),
        text("--write-auto-subs"),
        text("--embed-subs"),
        text("-f"),
        text(format),
        text("--restrict-filenames"),
        text("-c"),
        text("--skip-unavailable-fragments"),
        text("--ignore-errors"),
        text("-I"),
        selector,
        text("-o"),
        template,
        text(url),
    ];
    proof {
        reveal_strlit(":");
        assert(":"@ =~= seq![':']);
        assert(selector@ =~= range_selector(segment));
        assert(args@.len() == 16);
        assert(views(args@) =~= segment_command(segment, format@, separate_folders, url@));
    }
    args
}


/// The command that prints the item count of the collection at `url`.
pub open spec fn count_command(url: Seq<char>) -> Seq<Seq<char>> {
    seq![tool(), "--color"@, "never"@, "-I"@, "0"@, "-O"@, "playlist:playlist_count"@, url]
}

/// The arguments that ask for the item count of the collection at `url`.
pub fn count_args(url: &str) -> (r: Vec<String>)
    ensures
        views(r@) == count_command(url@),
{
    let args = vec![
        text("yt-dlp"),
        text("--color"),
        text("never"),
        text("-I"),
        text("0"),
        text("-O"),
        text("playlist:playlist_count"),
        text(url),
    ];
    proof {
        assert(views(args@) =~= count_command(url@));
    }
    args
}

/// The command that lists the formats of `url`: of its first item when it
/// is a collection.
pub open spec fn formats_command(url: Seq<char>, is_collection: bool) -> Seq<Seq<char>> {
    if is_collection {
        seq![tool(), "--color"@, "never"@, "-I"@, "1"@, "-F"@, url]
    } else {
        seq![tool(), "--color"@, "never"@, "-F"@, url]
    }
}

/// The arguments that list the available formats of `url`.
pub fn formats_args(url: &str, is_collection: bool) -> (r: Vec<String>)
    ensures
        views(r@) == formats_command(url@, is_collection),
{
    if is_collection {
        let args = vec![
            text("yt-dlp"),
            text("--color"),
            text("never"),
            text("-I"),
            text("1"),
            text("-F"),
            text(url),
        ];
        proof {
            assert(views(args@) =~= formats_command(url@, is_collection));
        }
        args
    } else {
        let args = vec![text("yt-dlp"), text("--color"), text("never"), text("-F"), text(url)];
        proof {
            assert(views(args@) =~= formats_command(url@, is_collection));
        }
        args
    }
}

/// The command that fetches the single item at `url` in `format`.
pub open spec fn single_command(format: Seq<char>, url: Seq<char>) -> Seq<Seq<char>> {
    seq![
        tool(),
        "--color"@,
        "never"@,
        "--write-auto-subs"@,
        "--embed-subs"@,
        "-f"@,
        format,
        "--restrict-filenames"@,
        "-c"@,
        "--skip-unavailable-fragments"@,
        "--ignore-errors"@,
        "-o"@,
        "%(title)s.%(ext)s"@,
        url,
    ]
}

/// The arguments that fetch the single item at `url` in `format`.
pub fn single_args(format: &str, url: &str) -> (r: Vec<String>)
    ensures
        views(r@) == single_command(format@, url@),
{
    let args = vec![
        text("yt-dlp"),
        text("--color"),
        text("never"),
        text("--write-auto-subs"),
        text("--embed-subs"),
        text("-f"),
        text(format),
        text("--restrict-filenames"),
        text("-c"),
        text("--skip-unavailable-fragments"),
        text("--ignore-errors"),
        text("-o"),
        text("%(title)s.%(ext)s"),
        text(url),
    ];
    proof {
        assert(views(args@) =~= single_command(format@, url@));
    }
    args
}

} // verus!
