//! The decisions of the command line: which command the arguments name,
//! whether a release tag is the running version, which release asset fits
//! the platform, and how release pages and checksum files are read.

use vstd::prelude::*;
use vstd::string::StringExecFns;
use vstd::string::StrSliceExecFns;

use crate::fmt::{last_segment, last_segment_range, trim_trailing_slashes};
use crate::text::{push_str, str_eq};
use crate::widgets::byte_len;

verus! {

/// What the program does after reading its arguments.
#[derive(Debug, Clone, Copy, PartialEq, Eq, Structural)]
pub enum CliAction {
    /// Start the terminal UI.
    RunTui,
    /// Stop: the command line asked for something else, done already.
    Exit,
}

/// The command that the arguments name.
#[derive(Debug, Clone, Copy, PartialEq, Eq, Structural)]
pub enum CliCommand {
    /// No arguments: start the terminal UI.
    RunTui,
    /// `-h`, `--help` or `help`.
    Help,
    /// `-V`, `--version` or `version`.
    Version,
    /// `check-update`.
    CheckUpdate,
    /// `update`.
    Update,
    /// Anything else: print the help and fail.
    Unknown,
}

/// The command named by the arguments (the program name not included).
pub open spec fn command_of(args: Seq<Seq<char>>) -> CliCommand {
    if args.len() == 0 {
        CliCommand::RunTui
    } else if args.len() > 1 {
        CliCommand::Unknown
    } else if args[0] == "-h"@ || args[0] == "--help"@ || args[0] == "help"@ {
        CliCommand::Help
    } else if args[0] == "-V"@ || args[0] == "--version"@ || args[0] == "version"@ {
        CliCommand::Version
    } else if args[0] == "check-update"@ {
        CliCommand::CheckUpdate
    } else if args[0] == "update"@ {
        CliCommand::Update
    } else {
        CliCommand::Unknown
    }
}

/// Reads the command from the arguments.
pub fn parse_args(args: &Vec<String>) -> (command: CliCommand)
    ensures
        command == command_of(args@.map_values(|a: String| a@)),
{
    let ghost view = args@.map_values(|a: String| a@);
    if args.len() == 0 {
        return CliCommand::RunTui;
    }
    if args.len() > 1 {
        return CliCommand::Unknown;
    }
    let arg = args[0].as_str();
    assert(arg@ == view[0]);
    if str_eq(arg, "-h") || str_eq(arg, "--help") || str_eq(arg, "help") {
        CliCommand::Help
    } else if str_eq(arg, "-V") || str_eq(arg, "--version") || str_eq(arg, "version") {
        CliCommand::Version
    } else if str_eq(arg, "check-update") {
        CliCommand::CheckUpdate
    } else if str_eq(arg, "update") {
        CliCommand::Update
    } else {
        CliCommand::Unknown
    }
}

/// Each command answers to its short option, its long option and its word:
/// `-h`, `--help` and `help` ask for the help, `-V`, `--version` and
/// `version` for the version; `check-update` and `update` name themselves;
/// no argument starts the terminal UI; more than one argument is never a
/// command.
pub proof fn law_command_names(args: Seq<Seq<char>>)
    ensures
        command_of(seq![]) == CliCommand::RunTui,
        command_of(seq!["-h"@]) == CliCommand::Help,
        command_of(seq!["--help"@]) == CliCommand::Help,
        command_of(seq!["help"@]) == CliCommand::Help,
        command_of(seq!["-V"@]) == CliCommand::Version,
        command_of(seq!["--version"@]) == CliCommand::Version,
        command_of(seq!["version"@]) == CliCommand::Version,
        command_of(seq!["check-update"@]) == CliCommand::CheckUpdate,
        command_of(seq!["update"@]) == CliCommand::Update,
        args.len() > 1 ==> command_of(args) == CliCommand::Unknown,
{
    reveal_strlit("-h");
    reveal_strlit("--help");
    reveal_strlit("help");
    reveal_strlit("-V");
    reveal_strlit("--version");
    reveal_strlit("version");
    reveal_strlit("check-update");
    reveal_strlit("update");
    assert("-V"@[1] != "-h"@[1]);
    assert("--version"@.len() != "--help"@.len() && "--version"@.len() != "-h"@.len()
        && "--version"@.len() != "help"@.len());
    assert("-V"@.len() != "--help"@.len() && "-V"@.len() != "help"@.len());
    assert("check-update"@.len() == 12 && "update"@.len() == 6 && "update"@[0] != "--help"@[0]);
    assert("-h"@.len() == 2 && "help"@.len() == 4 && "-V"@.len() == 2 && "--version"@.len() == 9
        && "version"@.len() == 7 && "--help"@.len() == 6);
}

/// The words joined with single spaces.
pub open spec fn joined(words: Seq<Seq<char>>) -> Seq<char>
    decreases words.len(),
{
    if words.len() == 0 {
        seq![]
    } else if words.len() == 1 {
        words[0]
    } else {
        joined(words.drop_last()) + seq![' '] + words.last()
    }
}

/// The message for arguments that name no command.
pub fn unknown_arguments_message(args: &Vec<String>) -> (message: String)
    ensures
        message@ == "unknown arguments: "@ + joined(args@.map_values(|a: String| a@)),
{
    let ghost view = args@.map_values(|a: String| a@);
    let mut message = String::from_str("unknown arguments: ");
    let ghost head = message@;
    let mut i: usize = 0;
    while i < args.len()
        invariant
            i <= args@.len(),
            view == args@.map_values(|a: String| a@),
            head == "unknown arguments: "@,
            message@ == head + joined(view.take(i as int)),
        decreases args.len() - i,
    {
        if i > 0 {
            push_str(&mut message, " ");
        }
        push_str(&mut message, args[i].as_str());
        proof {
            reveal_strlit(" ");
            assert(view.take(i + 1).drop_last() =~= view.take(i as int));
            assert(view.take(i + 1).last() == args@[i as int]@);
            if i == 0 {
                assert(view.take(1) =~= seq![view[0]]);
            }
        }
        i += 1;
        assert(message@ =~= head + joined(view.take(i as int)));
    }
    assert(view.take(args@.len() as int) =~= view);
    message
}

/// The version line: program name, version and build commit.
pub open spec fn version_text(version: Seq<char>, commit: Seq<char>) -> Seq<char> {
    "paneview "@ + version + " ("@ + commit + ")"@
}

/// The version line (see `version_text`).
pub fn version_string(version: &str, commit: &str) -> (line: String)
    ensures
        line@ == version_text(version@, commit@),
{
    let mut line = String::from_str("paneview ");
    push_str(&mut line, version);
    push_str(&mut line, " (");
    push_str(&mut line, commit);
    push_str(&mut line, ")");
    line
}

/// The usage text after the version line.
pub open spec fn usage_text() -> Seq<char> {
    "\n\nUsage:\n  paneview\n  paneview --version\n  paneview check-update\n  paneview update\n\nCommands:\n  check-update   Compare this build with the latest GitHub release.\n  update         Download and install the latest GitHub release binary.\n\nOptions:\n  -h, --help     Show this help.\n  -V, --version  Show version and build commit.\n"@
}

/// The help text: the version line, then the usage.
pub fn help_text(version_line: &str) -> (text: String)
    ensures
        text@ == version_line@ + usage_text(),
{
    let mut text = String::from_str(version_line);
    push_str(
        &mut text,
        "\n\nUsage:\n  paneview\n  paneview --version\n  paneview check-update\n  paneview update\n\nCommands:\n  check-update   Compare this build with the latest GitHub release.\n  update         Download and install the latest GitHub release binary.\n\nOptions:\n  -h, --help     Show this help.\n  -V, --version  Show version and build commit.\n",
    );
    text
}

// ---------------------------------------------------------------------------
// Versions and release tags

/// `s` without the `v` characters at its start.
pub open spec fn strip_leading_v(s: Seq<char>) -> Seq<char>
    decreases s.len(),
{
    if s.len() > 0 && s[0] == 'v' {
        strip_leading_v(s.drop_first())
    } else {
        s
    }
}

/// A leading `v` does not change which version a tag names.
pub proof fn law_leading_v_ignored(tag: Seq<char>)
    ensures
        strip_leading_v(seq!['v'] + tag) == strip_leading_v(tag),
{
    assert((seq!['v'] + tag).drop_first() =~= tag);
}

/// Whether release tag `tag` names version `current` (leading `v`s aside).
pub fn tag_matches_current(tag: &str, current: &str) -> (matches: bool)
    ensures
        matches == (strip_leading_v(tag@) == current@),
{
    let n = tag.unicode_len();
    let mut start: usize = 0;
    assert(tag@.skip(0) =~= tag@);
    while start < n && tag.get_char(start) == 'v'
        invariant
            start <= n,
            n == tag@.len(),
            strip_leading_v(tag@) == strip_leading_v(tag@.skip(start as int)),
        decreases n - start,
    {
        assert(tag@.skip(start as int).drop_first() =~= tag@.skip(start + 1));
        start += 1;
    }
    assert(tag@.subrange(start as int, n as int) =~= tag@.skip(start as int));
    str_eq(tag.substring_char(start, n), current)
}

/// The release tag at the end of the address that the latest-release page
/// redirects to: its last path segment, when that starts with `v`.
pub open spec fn release_tag_of(url: Seq<char>) -> Option<Seq<char>> {
    let segment = last_segment(trim_trailing_slashes(url));
    if segment.len() > 0 && segment[0] == 'v' {
        Some(segment)
    } else {
        None
    }
}

/// Reads the release tag from the address of the latest-release page.
pub fn release_tag(url: &str) -> (tag: Option<String>)
    ensures
        tag matches Some(t) ==> release_tag_of(url@) == Some(t@),
        tag is None ==> release_tag_of(url@) is None,
{
    let (start, end) = last_segment_range(url);
    if start < end && url.get_char(start) == 'v' {
        Some(String::from_str(url.substring_char(start, end)))
    } else {
        None
    }
}

/// The release asset target for an operating system and architecture.
pub open spec fn target_of(os: Seq<char>, arch: Seq<char>) -> Option<Seq<char>> {
    if os == "macos"@ && arch == "aarch64"@ {
        Some("aarch64-apple-darwin"@)
    } else if os == "macos"@ && arch == "x86_64"@ {
        Some("x86_64-apple-darwin"@)
    } else if os == "linux"@ && arch == "aarch64"@ {
        Some("aarch64-unknown-linux-gnu"@)
    } else if os == "linux"@ && arch == "x86_64"@ {
        Some("x86_64-unknown-linux-gnu"@)
    } else {
        None
    }
}

/// The release asset target for the platform; `None` when no release is
/// built for it.
pub fn detect_target(os: &str, arch: &str) -> (target: Option<&'static str>)
    ensures
        target matches Some(t) ==> target_of(os@, arch@) == Some(t@),
        target is None ==> target_of(os@, arch@) is None,
{
    if str_eq(os, "macos") && str_eq(arch, "aarch64") {
        Some("aarch64-apple-darwin")
    } else if str_eq(os, "macos") && str_eq(arch, "x86_64") {
        Some("x86_64-apple-darwin")
    } else if str_eq(os, "linux") && str_eq(arch, "aarch64") {
        Some("aarch64-unknown-linux-gnu")
    } else if str_eq(os, "linux") && str_eq(arch, "x86_64") {
        Some("x86_64-unknown-linux-gnu")
    } else {
        None
    }
}

/// The vendor and system part of a release target for an operating system:
/// `apple-darwin` for macOS, `unknown-linux-gnu` for Linux.
pub open spec fn target_system(os: Seq<char>) -> Option<Seq<char>> {
    if os == "macos"@ {
        Some("apple-darwin"@)
    } else if os == "linux"@ {
        Some("unknown-linux-gnu"@)
    } else {
        None
    }
}

/// The release target names the machine: releases exist for macOS and
/// Linux on 64-bit ARM and x86, and the target is the machine's
/// architecture, a hyphen, and the operating system's part.
pub proof fn law_target_names_the_platform(os: Seq<char>, arch: Seq<char>)
    ensures
        target_of(os, arch) is Some <==> (target_system(os) is Some && (arch == "aarch64"@ || arch
            == "x86_64"@)),
        target_of(os, arch) matches Some(t) ==> t == arch + "-"@ + target_system(os).unwrap(),
{
    reveal_strlit("macos");
    reveal_strlit("linux");
    reveal_strlit("aarch64");
    reveal_strlit("x86_64");
    reveal_strlit("-");
    reveal_strlit("apple-darwin");
    reveal_strlit("unknown-linux-gnu");
    reveal_strlit("aarch64-apple-darwin");
    reveal_strlit("x86_64-apple-darwin");
    reveal_strlit("aarch64-unknown-linux-gnu");
    reveal_strlit("x86_64-unknown-linux-gnu");
    assert("aarch64-apple-darwin"@ =~= "aarch64"@ + "-"@ + "apple-darwin"@);
    assert("x86_64-apple-darwin"@ =~= "x86_64"@ + "-"@ + "apple-darwin"@);
    assert("aarch64-unknown-linux-gnu"@ =~= "aarch64"@ + "-"@ + "unknown-linux-gnu"@);
    assert("x86_64-unknown-linux-gnu"@ =~= "x86_64"@ + "-"@ + "unknown-linux-gnu"@);
    assert("macos"@[0] != "linux"@[0]);
}

// ---------------------------------------------------------------------------
// Checksums

/// Unicode white space, as `char::is_whitespace` defines it (the
/// `White_Space` property).
pub open spec fn is_white_space(c: char) -> bool {
    let v = c as int;
    (0x9 <= v <= 0xD) || v == 0x20 || v == 0x85 || v == 0xA0 || v == 0x1680 || (0x2000 <= v
        <= 0x200A) || v == 0x2028 || v == 0x2029 || v == 0x202F || v == 0x205F || v == 0x3000
}

/// Whether `c` is white space.
pub fn white_space(c: char) -> (r: bool)
    ensures
        r == is_white_space(c),
{
    let v = c as u32;
    (0x9 <= v && v <= 0xD) || v == 0x20 || v == 0x85 || v == 0xA0 || v == 0x1680 || (0x2000 <= v
        && v <= 0x200A) || v == 0x2028 || v == 0x2029 || v == 0x202F || v == 0x205F || v == 0x3000
}

/// `s` without the white space at its start.
pub open spec fn skip_white_space(s: Seq<char>) -> Seq<char>
    decreases s.len(),
{
    if s.len() > 0 && is_white_space(s[0]) {
        skip_white_space(s.drop_first())
    } else {
        s
    }
}

/// The characters of `s` before its first white space.
pub open spec fn word_prefix(s: Seq<char>) -> Seq<char>
    decreases s.len(),
{
    if s.len() == 0 || is_white_space(s[0]) {
        seq![]
    } else {
        seq![s[0]] + word_prefix(s.drop_first())
    }
}

/// The first white-space-separated word of `s`, if any.
pub open spec fn first_word(s: Seq<char>) -> Option<Seq<char>> {
    let rest = skip_white_space(s);
    if rest.len() == 0 {
        None
    } else {
        Some(word_prefix(rest))
    }
}

/// The character range of the first word of `text`; an empty range when
/// it has none.
pub fn first_word_range(text: &str) -> (r: (usize, usize))
    ensures
        r.0 <= r.1 <= text@.len(),
        first_word(text@) is None <==> r.0 == r.1,
        first_word(text@) matches Some(w) ==> w == text@.subrange(r.0 as int, r.1 as int),
{
    let ghost s = text@;
    let n = text.unicode_len();
    let mut start: usize = 0;
    assert(s.skip(0) =~= s);
    while start < n && white_space(text.get_char(start))
        invariant
            start <= n,
            n == s.len(),
            s == text@,
            skip_white_space(s) == skip_white_space(s.skip(start as int)),
        decreases n - start,
    {
        assert(s.skip(start as int).drop_first() =~= s.skip(start + 1));
        start += 1;
    }
    assert(skip_white_space(s) == s.skip(start as int));
    let mut end = start;
    assert(s.subrange(start as int, end as int) =~= seq![]);
    while end < n && !white_space(text.get_char(end))
        invariant
            start <= end <= n,
            n == s.len(),
            s == text@,
            word_prefix(s.skip(start as int)) == s.subrange(start as int, end as int) + word_prefix(
                s.skip(end as int),
            ),
        decreases n - end,
    {
        assert(s.skip(end as int).drop_first() =~= s.skip(end + 1));
        assert(s.subrange(start as int, end + 1) =~= s.subrange(start as int, end as int) + seq![s[end as int]]);
        end += 1;
    }
    assert(word_prefix(s.skip(end as int)) =~= seq![]);
    assert(s.subrange(start as int, end as int) + seq![] =~= s.subrange(start as int, end as int));
    if start < n {
        assert(!is_white_space(s[start as int]));
        assert(end > start);
    }
    (start, end)
}

/// `s` without white space at its end.
pub open spec fn trim_white_space_end(s: Seq<char>) -> Seq<char>
    decreases s.len(),
{
    if s.len() > 0 && is_white_space(s.last()) {
        trim_white_space_end(s.drop_last())
    } else {
        s
    }
}

/// `s` without white space at either end, as `str::trim` gives it.
pub open spec fn trimmed(s: Seq<char>) -> Seq<char> {
    trim_white_space_end(skip_white_space(s))
}

/// The path that `command -v` printed: its output trimmed; `None` when
/// nothing is left.
#[verifier::rlimit(40)]
pub fn program_path(output: &str) -> (path: Option<String>)
    ensures
        path matches Some(p) ==> p@ == trimmed(output@) && p@.len() > 0,
        path is None ==> trimmed(output@).len() == 0,
{
    let ghost s = output@;
    let n = output.unicode_len();
    let mut start: usize = 0;
    assert(s.skip(0) =~= s);
    while start < n && white_space(output.get_char(start))
        invariant
            start <= n,
            n == s.len(),
            s == output@,
            skip_white_space(s) == skip_white_space(s.skip(start as int)),
        decreases n - start,
    {
        assert(s.skip(start as int).drop_first() =~= s.skip(start + 1));
        start += 1;
    }
    assert(skip_white_space(s) == s.skip(start as int));
    let mut end = n;
    assert(s.subrange(start as int, end as int) =~= s.skip(start as int));
    while end > start && white_space(output.get_char(end - 1))
        invariant
            start <= end <= n,
            n == s.len(),
            s == output@,
            trimmed(s) == trim_white_space_end(s.subrange(start as int, end as int)),
        decreases end,
    {
        assert(s.subrange(start as int, end - 1) =~= s.subrange(start as int, end as int).drop_last());
        end -= 1;
    }
    assert(trim_white_space_end(s.subrange(start as int, end as int)) == s.subrange(start as int, end as int));
    if start < end {
        Some(String::from_str(output.substring_char(start, end)))
    } else {
        None
    }
}

/// The lowercase form of a string, as `str::to_lowercase` gives it (the
/// Unicode lowercase mapping).
pub uninterp spec fn lowercase(s: Seq<char>) -> Seq<char>;

/// Lowercases `s` with `str::to_lowercase`.
///
/// Trusted: the result is named `lowercase` of the characters of `s`; the
/// Unicode mapping that `str::to_lowercase` applies is not restated.
#[verifier::external_body]
fn to_lowercase(s: &str) -> (r: String)
    ensures
        r@ == lowercase(s@),
{
    s.to_lowercase()
}

/// The SHA-256 digest that a checksum file or a checksum tool's output
/// names: its first word, lowercased, when that word is 64 bytes long.
pub open spec fn checksum_of(text: Seq<char>) -> Option<Seq<char>> {
    match first_word(text) {
        Some(w) => if byte_len(w) == 64 {
            Some(lowercase(w))
        } else {
            None
        },
        None => None,
    }
}

/// Reads the SHA-256 digest from a checksum file or a checksum tool's
/// output (see `checksum_of`).
pub fn parse_checksum(text: &str) -> (digest: Option<String>)
    ensures
        digest matches Some(d) ==> checksum_of(text@) == Some(d@),
        digest is None ==> checksum_of(text@) is None,
{
    let (start, end) = first_word_range(text);
    if start == end {
        return None;
    }
    let word = text.substring_char(start, end);
    if word.len() == 64 {
        Some(to_lowercase(word))
    } else {
        None
    }
}

proof fn lemma_last_segment_after_slash(base: Seq<char>, tag: Seq<char>)
    requires
        forall|i: int| 0 <= i < tag.len() ==> tag[i] != '/',
    ensures
        last_segment(base + seq!['/'] + tag) == tag,
    decreases tag.len(),
{
    let s = base + seq!['/'] + tag;
    if tag.len() == 0 {
        assert(s.last() == '/');
    } else {
        assert(s.last() == tag.last());
        assert(s.drop_last() =~= base + seq!['/'] + tag.drop_last());
        lemma_last_segment_after_slash(base, tag.drop_last());
        assert(tag.drop_last().push(tag.last()) =~= tag);
    }
}

/// The release tag is the last segment of the address that the
/// latest-release page redirects to: after the last `/` of the address (a
/// trailing `/` aside) comes the tag, which counts when it starts with `v`.
pub proof fn law_release_tag_is_last_segment(base: Seq<char>, tag: Seq<char>, trailing: bool)
    requires
        tag.len() > 0,
        forall|i: int| 0 <= i < tag.len() ==> tag[i] != '/',
    ensures
        release_tag_of(base + seq!['/'] + tag + (if trailing { seq!['/'] } else { seq![] })) == if tag[0]
            == 'v' {
            Some(tag)
        } else {
            None
        },
{
    let s = base + seq!['/'] + tag;
    let url = s + (if trailing { seq!['/'] } else { seq![] });
    assert(s.last() == tag.last());
    assert(tag[tag.len() - 1] != '/');
    assert(trim_trailing_slashes(s) == s);
    if trailing {
        assert(url.drop_last() =~= s);
        assert(url.last() == '/');
    } else {
        assert(url =~= s);
    }
    assert(trim_trailing_slashes(url) == s);
    lemma_last_segment_after_slash(base, tag);
}

/// A release tag names the version written after its leading `v`, and no
/// other (for a version that does not itself start with `v`).
pub proof fn law_tag_names_its_version(version: Seq<char>, other: Seq<char>)
    requires
        !(version.len() > 0 && version[0] == 'v'),
    ensures
        strip_leading_v(seq!['v'] + version) == version,
        other != version ==> strip_leading_v(seq!['v'] + version) != other,
{
    law_leading_v_ignored(version);
}

proof fn lemma_skip_leading_white_space(lead: Seq<char>, s: Seq<char>)
    requires
        forall|i: int| 0 <= i < lead.len() ==> is_white_space(lead[i]),
        s.len() == 0 || !is_white_space(s[0]),
    ensures
        skip_white_space(lead + s) == s,
    decreases lead.len(),
{
    if lead.len() == 0 {
        assert(lead + s =~= s);
    } else {
        assert((lead + s).drop_first() =~= lead.drop_first() + s);
        lemma_skip_leading_white_space(lead.drop_first(), s);
    }
}

proof fn lemma_word_prefix_stops_at_white_space(word: Seq<char>, rest: Seq<char>)
    requires
        forall|i: int| 0 <= i < word.len() ==> !is_white_space(word[i]),
        rest.len() == 0 || is_white_space(rest[0]),
    ensures
        word_prefix(word + rest) == word,
    decreases word.len(),
{
    if word.len() == 0 {
        assert(word + rest =~= rest);
    } else {
        assert((word + rest).drop_first() =~= word.drop_first() + rest);
        lemma_word_prefix_stops_at_white_space(word.drop_first(), rest);
        assert(seq![word[0]] + word.drop_first() =~= word);
    }
}

/// The digest is the first word of a checksum line, lowercased: after any
/// white space, a word followed by white space and anything else (such as
/// the file name) gives that word lowercased when it is 64 bytes long, and
/// nothing otherwise.
pub proof fn law_checksum_is_first_word(lead: Seq<char>, word: Seq<char>, rest: Seq<char>)
    requires
        forall|i: int| 0 <= i < lead.len() ==> is_white_space(lead[i]),
        word.len() > 0,
        forall|i: int| 0 <= i < word.len() ==> !is_white_space(word[i]),
        rest.len() == 0 || is_white_space(rest[0]),
    ensures
        checksum_of(lead + word + rest) == if byte_len(word) == 64 {
            Some(lowercase(word))
        } else {
            None
        },
{
    assert(lead + word + rest =~= lead + (word + rest));
    assert((word + rest)[0] == word[0]);
    lemma_skip_leading_white_space(lead, word + rest);
    lemma_word_prefix_stops_at_white_space(word, rest);
}

} // verus!
