//! The parts of building a site that work on one file: what kind of markup it
//! holds, its front matter and body, where it is written to, its slug, its date
//! and its Markdown rendered as HTML.
use vstd::prelude::*;
use crate::config::Config;
use crate::date::{Date, parsed_date, valid_ymd, ymd_layout};
use crate::error::GoethiteError;
use crate::paths;
use crate::text;
use crate::text::{split, without};

verus! {

/// The markup languages that a source file can be written in.
#[derive(Clone, Copy, Debug, PartialEq, Eq, Structural)]
pub enum Markup {
    Markdown,
    HTML,
    Mustache,
}

/// The name under which a markup language is shown to templates.
pub open spec fn markup_name(m: Markup) -> Seq<char> {
    match m {
        Markup::Markdown => "markdown"@,
        Markup::HTML => "html"@,
        Markup::Mustache => "mustache"@,
    }
}

/// The markup language of files with the extension `ext`.
pub open spec fn markup_for_extension(ext: Seq<char>) -> Option<Markup> {
    if ext == "md"@ || ext == "markdown"@ {
        Some(Markup::Markdown)
    } else if ext == "html"@ {
        Some(Markup::HTML)
    } else if ext == "mustache"@ {
        Some(Markup::Mustache)
    } else {
        None
    }
}

/// The markup language of the file at `path`, by the extension of its name.
pub open spec fn markup_of_path(path: Seq<char>) -> Option<Markup> {
    match paths::extension_of(path) {
        Some(ext) => markup_for_extension(ext),
        None => None,
    }
}

impl Markup {
    /// The name under which this markup language is shown to templates.
    pub fn as_str(&self) -> (r: &'static str)
        ensures
            r@ == markup_name(*self),
    {
        match self {
            Markup::Markdown => "markdown",
            Markup::HTML => "html",
            Markup::Mustache => "mustache",
        }
    }
}

/// The markup language of files with the extension `ext`: `md` and `markdown`
/// for Markdown, `html` for HTML, `mustache` for Mustache templates.
pub fn markup_from_extension(ext: &str) -> (r: Option<Markup>)
    ensures
        r == markup_for_extension(ext@),
{
    if text::same_text(ext, "md") || text::same_text(ext, "markdown") {
        Some(Markup::Markdown)
    } else if text::same_text(ext, "html") {
        Some(Markup::HTML)
    } else if text::same_text(ext, "mustache") {
        Some(Markup::Mustache)
    } else {
        None
    }
}

/// The markup language of the file at `path`, by the extension of its name.
pub fn extract_markup(path: &str) -> (r: Option<Markup>)
    ensures
        r == markup_of_path(path@),
{
    match paths::extension(path) {
        Some(ext) => markup_from_extension(ext.as_str()),
        None => None,
    }
}

/// The front matter of a file, if it has one, and the text that follows it.
pub struct Content {
    pub text: String,
    pub attributes: Option<String>,
}

/// The line that opens and closes the front matter of a file: `---`.
pub open spec fn fence() -> Seq<char> {
    seq!['-', '-', '-']
}

/// `ps` without the empty pieces at its front.
pub open spec fn drop_leading_empty(ps: Seq<Seq<char>>) -> Seq<Seq<char>>
    decreases ps.len(),
{
    if ps.len() > 0 && ps[0].len() == 0 {
        drop_leading_empty(ps.drop_first())
    } else {
        ps
    }
}

/// The pieces of a file's text between its fences, less the empty ones at the front.
pub open spec fn content_pieces(text: Seq<char>) -> Seq<Seq<char>> {
    drop_leading_empty(split(text, fence()))
}

/// The front matter and body that a file's text holds: with exactly two pieces,
/// the first is the front matter and the second the body; otherwise there is
/// no front matter and the first piece is the body.
pub open spec fn spec_read_content(text: Seq<char>) -> (Option<Seq<char>>, Seq<char>) {
    let ps = content_pieces(text);
    if ps.len() == 2 {
        (Some(ps[0]), ps[1])
    } else {
        (None, ps[0])
    }
}

proof fn lemma_drop_leading_empty_skip(ps: Seq<Seq<char>>, k: int)
    requires
        0 <= k < ps.len(),
        forall|j: int| 0 <= j < k ==> ps[j].len() == 0,
    ensures
        drop_leading_empty(ps) == drop_leading_empty(ps.skip(k)),
    decreases k,
{
    if k > 0 {
        assert(ps.skip(1).skip(k - 1) =~= ps.skip(k));
        lemma_drop_leading_empty_skip(ps.drop_first(), k - 1);
    } else {
        assert(ps.skip(0) =~= ps);
    }
}

proof fn lemma_all_empty(ps: Seq<Seq<char>>)
    requires
        forall|j: int| 0 <= j < ps.len() ==> ps[j].len() == 0,
    ensures
        drop_leading_empty(ps).len() == 0,
    decreases ps.len(),
{
    if ps.len() > 0 {
        lemma_all_empty(ps.drop_first());
    }
}

/// The number of empty pieces at the front of `pieces`: leaving them out leaves
/// what `drop_leading_empty` leaves.
fn leading_empty_count(pieces: &Vec<String>) -> (k: usize)
    ensures
        k <= pieces@.len(),
        drop_leading_empty(text::views(pieces@)) == text::views(pieces@).skip(k as int),
{
    let ghost ps = text::views(pieces@);
    let mut k: usize = 0;
    while k < pieces.len() && pieces[k].as_str().is_empty()
        invariant
            k <= pieces@.len(),
            ps == text::views(pieces@),
            forall|j: int| 0 <= j < k ==> ps[j].len() == 0,
        decreases pieces@.len() - k,
    {
        k = k + 1;
    }
    proof {
        if k == pieces.len() {
            lemma_all_empty(ps);
            assert(drop_leading_empty(ps) =~= ps.skip(k as int));
        } else {
            lemma_drop_leading_empty_skip(ps, k as int);
            assert(ps.skip(k as int)[0] == pieces@[k as int]@);
        }
    }
    k
}

/// Whether a file's text holds anything but fences, so that its body can be read.
pub fn has_content(text: &str) -> (r: bool)
    ensures
        r == (content_pieces(text@).len() > 0),
{
    let fence_text = "---";
    proof {
        reveal_strlit("---");
    }
    assert(fence_text@ =~= fence());
    let pieces = text::split_str(text, fence_text);
    let k = leading_empty_count(&pieces);
    k < pieces.len()
}

/// The front matter and body of a file's text. The text is cut at each `---`;
/// the empty pieces at its front are left out; when two pieces remain, they are
/// the front matter and the body, and otherwise the first one is the body.
pub fn read_content(text: &str) -> (c: Content)
    requires
        content_pieces(text@).len() > 0,
    ensures
        text::opt_view(c.attributes) == spec_read_content(text@).0,
        c.text@ == spec_read_content(text@).1,
{
    let fence_text = "---";
    proof {
        reveal_strlit("---");
    }
    assert(fence_text@ =~= fence());
    let pieces = text::split_str(text, fence_text);
    let k = leading_empty_count(&pieces);
    let ghost ps = text::views(pieces@);
    assert(content_pieces(text@) == ps.skip(k as int));
    if pieces.len() - k == 2 {
        Content { attributes: Some(pieces[k].clone()), text: pieces[k + 1].clone() }
    } else {
        Content { attributes: None, text: pieces[k].clone() }
    }
}

/// The directory path `s` with a `/` at its end.
pub open spec fn normalized(s: Seq<char>) -> Seq<char> {
    if s.len() > 0 && s.last() == '/' {
        s
    } else {
        s.push('/')
    }
}

/// The directory path `s` with a `/` at its end: `s` itself where it ends with one.
pub fn normalize_path_str(s: &String) -> (r: String)
    ensures
        r@ == normalized(s@),
{
    let n = s.as_str().unicode_len();
    if n > 0 && s.as_str().get_char(n - 1) == '/' {
        s.clone()
    } else {
        let r = s.clone().concat("/");
        proof {
            reveal_strlit("/");
        }
        assert(r@ =~= s@.push('/'));
        r
    }
}

/// Where the file at `path` is written to in a site with sources in `source`
/// that is built into `destination`: under the date prefix, when there is one,
/// by its file name alone; otherwise at its place relative to the source directory.
pub open spec fn spec_new_path(
    path: Seq<char>,
    prefix: Option<Seq<char>>,
    source: Seq<char>,
    destination: Seq<char>,
) -> Seq<char> {
    match prefix {
        Some(p) => paths::joined_path(
            paths::joined_path(destination, p),
            match paths::file_name_of(path) {
                Some(n) => n,
                None => Seq::empty(),
            },
        ),
        None => paths::joined_path(
            destination,
            if paths::path_starts_with(path, normalized(source)) {
                without(path, normalized(source))
            } else {
                path
            },
        ),
    }
}

/// Where the file at `path` is written to when the site is built: under the
/// destination directory, in the directory `prefix` by its file name where
/// there is a prefix, and otherwise at its place relative to the source
/// directory (every occurrence of the source directory taken out of its path,
/// where it begins with that directory).
pub fn new_path(path: &str, prefix: Option<String>, config: &Config) -> (r: String)
    ensures
        r@ == spec_new_path(path@, text::opt_view(prefix), config.source@, config.destination@),
{
    let file_name = match paths::file_name(path) {
        Some(n) => n,
        None => String::new(),
    };
    let normalized_source = normalize_path_str(&config.source);
    let rp = text::remove_all(path, normalized_source.as_str());
    let base = config.destination.as_str();
    match prefix {
        Some(p) => {
            let dir = paths::join(base, p.as_str());
            paths::join(dir.as_str(), file_name.as_str())
        },
        None => {
            if paths::starts_with(path, normalized_source.as_str()) {
                paths::join(base, rp.as_str())
            } else {
                paths::join(base, path)
            }
        },
    }
}

/// The file that a page at `path` is written to: its path with the extension `html`.
pub fn output_file_path(path: &str) -> (r: String)
    ensures
        r@ == paths::path_with_extension(path@, "html"@),
{
    let ext = "html";
    proof {
        reveal_strlit("html");
    }
    assert(!ext@.contains('/')) by {
        assert(forall|i: int| 0 <= i < ext@.len() ==> ext@[i] != '/');
    }
    paths::with_extension(path, ext)
}


/// The characters that `[[:alnum:]]` matches in a regular expression: ASCII
/// letters and digits.
pub open spec fn is_alnum(c: char) -> bool {
    ('0' <= c && c <= '9') || ('A' <= c && c <= 'Z') || ('a' <= c && c <= 'z')
}

/// `s` without the characters at its front that are not ASCII letters or digits.
pub open spec fn skip_non_alnum(s: Seq<char>) -> Seq<char>
    decreases s.len(),
{
    if s.len() > 0 && !is_alnum(s[0]) {
        skip_non_alnum(s.drop_first())
    } else {
        s
    }
}

/// Skipping leading characters that are not letters or digits leaves a suffix
/// of `s` that is empty or begins with a letter or digit.
pub proof fn lemma_skip_non_alnum(s: Seq<char>)
    ensures
        skip_non_alnum(s).len() <= s.len(),
        skip_non_alnum(s) == s.skip(s.len() - skip_non_alnum(s).len()),
        skip_non_alnum(s).len() > 0 ==> is_alnum(skip_non_alnum(s)[0]),
    decreases s.len(),
{
    if s.len() > 0 && !is_alnum(s[0]) {
        lemma_skip_non_alnum(s.drop_first());
        assert(s.drop_first().skip(s.drop_first().len() - skip_non_alnum(s).len()) =~= s.skip(
            s.len() - skip_non_alnum(s).len(),
        ));
    } else {
        assert(s.skip(0) =~= s);
    }
}

/// `s` with each run of characters that are not ASCII letters or digits
/// replaced by `rep`: what replacing the regular expression `[^[:alnum:]]+` by
/// `rep` leaves of it.
pub open spec fn dash_runs(s: Seq<char>, rep: Seq<char>) -> Seq<char>
    decreases s.len(),
{
    if s.len() == 0 {
        Seq::empty()
    } else if is_alnum(s[0]) {
        seq![s[0]] + dash_runs(s.drop_first(), rep)
    } else {
        proof {
            lemma_skip_non_alnum(s.drop_first());
        }
        rep + dash_runs(skip_non_alnum(s.drop_first()), rep)
    }
}

/// `s` with a `-` at its front, and then one at its end, replaced by `rep`: what
/// replacing the regular expression `^-|-$` by `rep` leaves of it.
pub open spec fn trim_dashes(s: Seq<char>, rep: Seq<char>) -> Seq<char> {
    let front = s.len() > 0 && s[0] == '-';
    let rest = if front { s.drop_first() } else { s };
    let back = rest.len() > 0 && rest.last() == '-';
    let middle = if back { rest.drop_last() } else { rest };
    (if front { rep } else { Seq::empty() }) + middle + (if back { rep } else { Seq::empty() })
}

/// The ASCII lower-case form of `c`.
pub open spec fn ascii_lower(c: char) -> char {
    if 'A' <= c && c <= 'Z' {
        ((c as u32) + 32) as char
    } else {
        c
    }
}

/// `s` with its ASCII capital letters in lower case.
pub open spec fn lower_ascii(s: Seq<char>) -> Seq<char> {
    s.map_values(|c: char| ascii_lower(c))
}

/// Every character of `s` is an ASCII one.
pub open spec fn all_ascii(s: Seq<char>) -> bool {
    forall|i: int| 0 <= i < s.len() ==> (s[i] as u32) < 128
}

/// The slug of a title: its runs of characters other than ASCII letters and
/// digits made into single dashes, one dash taken from each end, in lower case.
pub open spec fn slug(s: Seq<char>) -> Seq<char> {
    lower_ascii(trim_dashes(dash_runs(s, seq!['-']), Seq::empty()))
}

/// A replacement text without `$`, which the regex crate inserts as it stands.
pub open spec fn plain_replacement(rep: Seq<char>) -> bool {
    !rep.contains('$')
}

/// The regular expression that matches runs of characters other than ASCII
/// letters and digits.
pub open spec fn run_pattern() -> Seq<char> {
    "[^[:alnum:]]+"@
}

/// The regular expression that matches a dash at the front or at the end.
pub open spec fn end_dash_pattern() -> Seq<char> {
    "^-|-$"@
}

/// What `regex::Regex::new(pattern)` and `Regex::replace_all(text, rep)` give
/// back: the text with each match of the pattern replaced; `None` where the
/// pattern does not compile.
pub uninterp spec fn regex_replaced(pattern: Seq<char>, text: Seq<char>, rep: Seq<char>) -> Option<
    Seq<char>,
>;

/// What `str::to_lowercase` gives back for `s`.
pub uninterp spec fn lowercased(s: Seq<char>) -> Seq<char>;

#[verifier::external_type_specification]
#[verifier::external_body]
pub struct ExRegexError(regex::Error);

/// Calls `regex::Regex::new(pattern)` and, where the pattern compiles,
/// `Regex::replace_all(text, rep)`. Trusted: the result is the one named by
/// `regex_replaced`; and, as the crate documents (`[[:alnum:]]` is the ASCII
/// class `[0-9A-Za-z]`, `+` is greedy, `^` and `$` match only at the ends of
/// the text, matches are found leftmost-first and do not overlap, and a
/// replacement without `$` is inserted as it stands), the pattern
/// `[^[:alnum:]]+` replaces each run of characters outside that class, and
/// `^-|-$` a `-` at the front and one at the end.
#[verifier::external_body]
fn regex_replace_all(pattern: &str, text: &str, rep: &str) -> (r: Result<String, regex::Error>)
    ensures
        r is Ok <==> regex_replaced(pattern@, text@, rep@) is Some,
        r matches Ok(t) ==> regex_replaced(pattern@, text@, rep@) == Some(t@),
        plain_replacement(rep@) && pattern@ == run_pattern() ==> r is Ok && r.unwrap()@ == dash_runs(text@, rep@),
        plain_replacement(rep@) && pattern@ == end_dash_pattern() ==> r is Ok && r.unwrap()@ == trim_dashes(text@, rep@),
{
    match regex::Regex::new(pattern) {
        Ok(re) => Ok(re.replace_all(text, rep).into_owned()),
        Err(e) => Err(e),
    }
}

/// Calls `str::to_lowercase` on `s`. Trusted: the result is the one named by
/// `lowercased`; on ASCII text, where Unicode's lower case is ASCII's, it puts
/// the capital letters `A` to `Z` in lower case and keeps every other character.
#[verifier::external_body]
fn to_lowercase(s: &str) -> (r: String)
    ensures
        r@ == lowercased(s@),
        all_ascii(s@) ==> r@ == lower_ascii(s@),
{
    s.to_lowercase()
}

proof fn lemma_dash_runs_chars(s: Seq<char>)
    ensures
        forall|i: int|
            0 <= i < dash_runs(s, seq!['-']).len() ==> is_alnum(#[trigger] dash_runs(
                s,
                seq!['-'],
            )[i]) || dash_runs(s, seq!['-'])[i] == '-',
        forall|i: int|
            0 <= i < dash_runs(s, seq!['-']).len() - 1 ==> !(#[trigger] dash_runs(s, seq!['-'])[i]
                == '-' && dash_runs(s, seq!['-'])[i + 1] == '-'),
        s.len() > 0 && is_alnum(s[0]) ==> dash_runs(s, seq!['-']).len() > 0 && dash_runs(
            s,
            seq!['-'],
        )[0] == s[0],
    decreases s.len(),
{
    let d = dash_runs(s, seq!['-']);
    if s.len() == 0 {
    } else if is_alnum(s[0]) {
        lemma_dash_runs_chars(s.drop_first());
        let t = dash_runs(s.drop_first(), seq!['-']);
        assert(d == seq![s[0]] + t);
        assert forall|i: int| 0 <= i < d.len() - 1 implies !(#[trigger] d[i] == '-' && d[i + 1]
            == '-') by {
            if i > 0 {
                assert(d[i] == t[i - 1] && d[i + 1] == t[i]);
            }
        }
        assert forall|i: int| 0 <= i < d.len() implies is_alnum(#[trigger] d[i]) || d[i] == '-' by {
            if i > 0 {
                assert(d[i] == t[i - 1]);
            }
        }
    } else {
        let u = skip_non_alnum(s.drop_first());
        lemma_skip_non_alnum(s.drop_first());
        lemma_dash_runs_chars(u);
        let t = dash_runs(u, seq!['-']);
        assert(d == seq!['-'] + t);
        if u.len() > 0 {
            assert(t[0] == u[0]);
        }
        assert forall|i: int| 0 <= i < d.len() - 1 implies !(#[trigger] d[i] == '-' && d[i + 1]
            == '-') by {
            if i > 0 {
                assert(d[i] == t[i - 1] && d[i + 1] == t[i]);
            } else {
                assert(d[1] == t[0]);
            }
        }
        assert forall|i: int| 0 <= i < d.len() implies is_alnum(#[trigger] d[i]) || d[i] == '-' by {
            if i > 0 {
                assert(d[i] == t[i - 1]);
            }
        }
    }
}

/// Every character of `s` is an ASCII letter or digit or a dash, and no two
/// dashes stand side by side.
pub open spec fn dashed_words(s: Seq<char>) -> bool {
    &&& forall|i: int| 0 <= i < s.len() ==> is_alnum(#[trigger] s[i]) || s[i] == '-'
    &&& forall|i: int| 0 <= i < s.len() - 1 ==> !(#[trigger] s[i] == '-' && s[i + 1] == '-')
}

proof fn lemma_trim_dashed(d: Seq<char>)
    requires
        dashed_words(d),
    ensures
        dashed_words(trim_dashes(d, Seq::empty())),
        trim_dashes(d, Seq::empty()).len() > 0 ==> trim_dashes(d, Seq::empty())[0] != '-'
            && trim_dashes(d, Seq::empty()).last() != '-',
{
    let front = d.len() > 0 && d[0] == '-';
    let rest = if front { d.drop_first() } else { d };
    let back = rest.len() > 0 && rest.last() == '-';
    let middle = if back { rest.drop_last() } else { rest };
    assert(trim_dashes(d, Seq::empty()) =~= middle);
    let off: int = if front { 1 } else { 0 };
    assert forall|i: int| 0 <= i < middle.len() implies middle[i] == d[i + off] by {}
    if middle.len() > 0 {
        if front {
            assert(middle[0] == d[1]);
        }
        if back {
            assert(rest.len() >= 2);
            assert(middle.last() == rest[rest.len() - 2]);
            assert(rest[rest.len() - 1] == '-');
            assert(d[rest.len() - 2 + off] == middle.last());
            assert(d[rest.len() - 1 + off] == '-');
        } else {
            assert(middle.last() == rest.last());
        }
    }
    assert forall|i: int| 0 <= i < middle.len() - 1 implies !(#[trigger] middle[i] == '-' && middle[i
        + 1] == '-') by {
        assert(middle[i] == d[i + off] && middle[i + 1] == d[i + 1 + off]);
    }
    assert forall|i: int| 0 <= i < middle.len() implies is_alnum(#[trigger] middle[i]) || middle[i]
        == '-' by {
        assert(middle[i] == d[i + off]);
    }
}

/// The slug of a title: each run of characters other than ASCII letters and
/// digits becomes one dash, a dash is taken from each end, and the letters are
/// put in lower case.
pub fn slugify(s: &String) -> (r: String)
    ensures
        r@ == slug(s@),
{
    proof {
        reveal_strlit("-");
        reveal_strlit("");
    }
    let dash = "-";
    assert(dash@ =~= seq!['-']);
    assert(plain_replacement(dash@));
    let slug_title = match regex_replace_all("[^[:alnum:]]+", s.as_str(), dash) {
        Ok(t) => t,
        Err(_) => {
            assert(false);
            String::new()
        },
    };
    let nothing = "";
    assert(nothing@ =~= Seq::<char>::empty());
    assert(plain_replacement(nothing@));
    let trimmed = match regex_replace_all("^-|-$", slug_title.as_str(), nothing) {
        Ok(t) => t,
        Err(_) => {
            assert(false);
            String::new()
        },
    };
    proof {
        lemma_dash_runs_chars(s@);
        lemma_trim_dashed(dash_runs(s@, seq!['-']));
        assert forall|i: int| 0 <= i < trimmed@.len() implies (trimmed@[i] as u32) < 128 by {
            assert(is_alnum(trimmed@[i]) || trimmed@[i] == '-');
        }
    }
    to_lowercase(trimmed.as_str())
}


/// Hoedown's extension flag for tables.
pub const TABLES: u32 = 1;

/// Hoedown's extension flag for fenced code blocks.
pub const FENCED_CODE: u32 = 2;

/// Hoedown's extension flag for footnotes.
pub const FOOTNOTES: u32 = 4;

/// Hoedown's extension flag for links made of bare URLs and e-mail addresses.
pub const AUTOLINK: u32 = 8;

/// Hoedown's extension flag for `~~strikethrough~~`.
pub const STRIKETHROUGH: u32 = 16;

/// Hoedown's extension flag for `^superscript`.
pub const SUPERSCRIPT: u32 = 256;

/// Hoedown's extension flag that keeps emphasis out of the middle of words.
pub const NO_INTRA_EMPHASIS: u32 = 2048;

/// The Markdown extensions that pages are rendered with.
pub const MARKDOWN_EXTENSIONS: u32 = FOOTNOTES | FENCED_CODE | TABLES | AUTOLINK | STRIKETHROUGH
    | SUPERSCRIPT | NO_INTRA_EMPHASIS;

/// The HTML renderer's flags that pages are rendered with: none.
pub const HTML_RENDER_FLAGS: u32 = 0;

/// The header nesting level that the HTML renderer is made with.
pub const HTML_NESTING_LEVEL: i32 = 0;

/// What hoedown renders the Markdown `text` as, with the extension flags
/// `extensions`, and an HTML renderer made with the flags `html_flags` and the
/// nesting level `nesting_level`: the HTML where it is UTF-8, and otherwise the
/// message of the `Utf8Error` that reading it as UTF-8 ends in.
pub uninterp spec fn hoedown_html(
    text: Seq<char>,
    extensions: u32,
    html_flags: u32,
    nesting_level: i32,
) -> Result<Seq<char>, Seq<char>>;

/// Renders the Markdown `text` with hoedown: `Markdown::from` its bytes with
/// the extension flags `extensions`, `Html::new` with the HTML flags `html_flags`
/// (bits that name no flag are dropped) and the nesting level `nesting_level`,
/// `render`, and the resulting buffer's `to_str`, whose `Utf8Error` is handed
/// back as its message. Trusted: the result is the one named by `hoedown_html`.
#[verifier::external_body]
fn hoedown_render(text: &str, extensions: u32, html_flags: u32, nesting_level: i32) -> (r: Result<String, String>)
    ensures
        r is Ok <==> hoedown_html(text@, extensions, html_flags, nesting_level) is Ok,
        r is Ok ==> hoedown_html(text@, extensions, html_flags, nesting_level) == Ok::<Seq<char>, Seq<char>>(r.unwrap()@),
        r is Err ==> hoedown_html(text@, extensions, html_flags, nesting_level) == Err::<Seq<char>, Seq<char>>(r.unwrap_err()@),
{
    let doc = hoedown::Markdown::from(text.as_bytes()).extensions(
        hoedown::Extension::from_bits_truncate(extensions),
    );
    let flags = hoedown::renderer::html::Flags::from_bits_truncate(html_flags);
    let mut html = hoedown::Html::new(flags, nesting_level);
    match hoedown::Render::render(&mut html, &doc).to_str() {
        Ok(t) => Ok(t.to_string()),
        Err(e) => Err(e.to_string()),
    }
}

/// The Markdown `text` rendered as HTML, with footnotes, fenced code, tables,
/// autolinks, strikethrough, superscript and no emphasis inside words;
/// `InvalidMarkdown` with the UTF-8 error's message where the HTML is not UTF-8.
pub fn render_markdown(text: String) -> (r: Result<String, GoethiteError>)
    ensures
        r is Ok <==> hoedown_html(text@, MARKDOWN_EXTENSIONS, HTML_RENDER_FLAGS, HTML_NESTING_LEVEL) is Ok,
        r is Ok ==> hoedown_html(text@, MARKDOWN_EXTENSIONS, HTML_RENDER_FLAGS, HTML_NESTING_LEVEL) == Ok::<Seq<char>, Seq<char>>(r.unwrap()@),
        r is Err ==> r.unwrap_err() is InvalidMarkdown,
        r matches Err(GoethiteError::InvalidMarkdown(m)) ==> hoedown_html(text@, MARKDOWN_EXTENSIONS, HTML_RENDER_FLAGS, HTML_NESTING_LEVEL)
            == Err::<Seq<char>, Seq<char>>(m@),
{
    match hoedown_render(text.as_str(), MARKDOWN_EXTENSIONS, HTML_RENDER_FLAGS, HTML_NESTING_LEVEL) {
        Ok(html) => Ok(html),
        Err(message) => Err(GoethiteError::InvalidMarkdown(message)),
    }
}

/// The date of a page built on the day `today`, where that day is known: the one
/// its front matter writes as `YYYY-MM-DD`, or `today` where it writes none;
/// `InvalidDate` where the date does not read, and `Other` where the front matter
/// writes no date and the day is not known.
pub fn parse_date_on(s: Option<String>, today: Option<Date>) -> (r: Result<Date, GoethiteError>)
    ensures
        s is None ==> (today matches Some(t) ==> (r matches Ok(d) && d@ == t@)),
        s is None ==> (today is None ==> r == Err::<Date, GoethiteError>(GoethiteError::Other)),
        s matches Some(t) ==> (r is Ok <==> parsed_date(t@, ymd_layout()) is Some),
        s matches Some(t) ==> (r is Ok ==> parsed_date(t@, ymd_layout()) == Some(r.unwrap()@)),
        s matches Some(t) ==> (r is Err ==> r.unwrap_err() == GoethiteError::InvalidDate(t)),
{
    match s {
        Some(date) => match Date::parse(date.as_str()) {
            Ok(d) => Ok(d),
            Err(_) => Err(GoethiteError::InvalidDate(date)),
        },
        None => match today {
            Some(d) => Ok(d),
            None => Err(GoethiteError::Other),
        },
    }
}

/// The date of a page: the one its front matter writes as `YYYY-MM-DD`, or
/// today's date by the clock where it writes none; `InvalidDate` where the date
/// does not read, and `Other` where the clock is needed and reads a time whose
/// date lies outside the years that a date can have.
pub fn parse_date(s: Option<String>) -> (r: Result<Date, GoethiteError>)
    ensures
        s is None ==> (r is Err ==> r == Err::<Date, GoethiteError>(GoethiteError::Other)),
        s is None ==> (r matches Ok(d) ==> valid_ymd(d@)),
        s matches Some(t) ==> (r is Ok <==> parsed_date(t@, ymd_layout()) is Some),
        s matches Some(t) ==> (r is Ok ==> parsed_date(t@, ymd_layout()) == Some(r.unwrap()@)),
        s matches Some(t) ==> (r is Err ==> r.unwrap_err() == GoethiteError::InvalidDate(t)),
{
    let today = match s {
        Some(_) => None,
        None => Date::today(),
    };
    parse_date_on(s, today)
}

/// The characters that slugs are made of: ASCII digits, lower-case letters and `-`.
pub open spec fn slug_char(c: char) -> bool {
    ('0' <= c && c <= '9') || ('a' <= c && c <= 'z') || c == '-'
}

/// A slug is made of ASCII digits, lower-case letters and dashes; no two dashes
/// stand side by side, and it neither begins nor ends with a dash.
pub proof fn law_slug_shape(s: Seq<char>)
    ensures
        forall|i: int| 0 <= i < slug(s).len() ==> slug_char(#[trigger] slug(s)[i]),
        forall|i: int| 0 <= i < slug(s).len() - 1 ==> !(#[trigger] slug(s)[i] == '-' && slug(s)[i + 1] == '-'),
        slug(s).len() > 0 ==> slug(s)[0] != '-' && slug(s).last() != '-',
{
    lemma_dash_runs_chars(s);
    let t = trim_dashes(dash_runs(s, seq!['-']), Seq::empty());
    lemma_trim_dashed(dash_runs(s, seq!['-']));
    let u = slug(s);
    assert(u.len() == t.len());
    assert forall|i: int| 0 <= i < u.len() implies #[trigger] u[i] == ascii_lower(t[i]) by {}
    assert forall|i: int| 0 <= i < u.len() implies slug_char(#[trigger] u[i]) by {
        assert(is_alnum(t[i]) || t[i] == '-');
    }
    assert forall|i: int| 0 <= i < u.len() - 1 implies !(#[trigger] u[i] == '-' && u[i + 1] == '-') by {
        assert(u[i] == ascii_lower(t[i]) && u[i + 1] == ascii_lower(t[i + 1]));
        assert(is_alnum(t[i]) || t[i] == '-');
    }
    if u.len() > 0 {
        assert(u[0] == ascii_lower(t[0]));
        assert(u.last() == ascii_lower(t.last()));
        assert(is_alnum(t[0]) || t[0] == '-');
        assert(is_alnum(t[t.len() - 1]) || t[t.len() - 1] == '-');
    }
}

proof fn lemma_dash_runs_of_dashed_words(w: Seq<char>)
    requires
        dashed_words(w),
    ensures
        dash_runs(w, seq!['-']) == w,
    decreases w.len(),
{
    if w.len() > 0 {
        let tail = w.drop_first();
        assert(dashed_words(tail)) by {
            assert forall|i: int| 0 <= i < tail.len() implies is_alnum(#[trigger] tail[i]) || tail[i]
                == '-' by {
                assert(tail[i] == w[i + 1]);
            }
            assert forall|i: int| 0 <= i < tail.len() - 1 implies !(#[trigger] tail[i] == '-'
                && tail[i + 1] == '-') by {
                assert(tail[i] == w[i + 1] && tail[i + 1] == w[i + 2]);
            }
        }
        lemma_dash_runs_of_dashed_words(tail);
        if is_alnum(w[0]) {
            assert(seq![w[0]] + tail =~= w);
        } else {
            if tail.len() > 0 {
                assert(tail[0] == w[1]);
                assert(is_alnum(tail[0]));
            }
            assert(skip_non_alnum(tail) == tail);
            assert(seq!['-'] + tail =~= w);
        }
    }
}

/// The slug of a slug is itself.
pub proof fn law_slug_idempotent(s: Seq<char>)
    ensures
        slug(slug(s)) == slug(s),
{
    law_slug_shape(s);
    let u = slug(s);
    assert(dashed_words(u)) by {
        assert forall|i: int| 0 <= i < u.len() implies is_alnum(#[trigger] u[i]) || u[i] == '-' by {
            assert(slug_char(u[i]));
        }
    }
    lemma_dash_runs_of_dashed_words(u);
    assert(trim_dashes(u, Seq::empty()) =~= u);
    assert(lower_ascii(u) =~= u) by {
        assert forall|i: int| 0 <= i < u.len() implies #[trigger] lower_ascii(u)[i] == u[i] by {
            assert(slug_char(u[i]));
        }
    }
}

/// A directory path, once normalized, ends with `/` and stays as it is when
/// normalized again.
pub proof fn law_normalized(s: Seq<char>)
    ensures
        normalized(s).len() > 0,
        normalized(s).last() == '/',
        normalized(normalized(s)) == normalized(s),
{
}

/// The name that a markup language is shown under, read as an extension, is
/// that markup language again.
pub proof fn law_markup_name_round_trip(m: Markup)
    ensures
        markup_for_extension(markup_name(m)) == Some(m),
{
    reveal_strlit("md");
    reveal_strlit("markdown");
    reveal_strlit("html");
    reveal_strlit("mustache");
    if m == Markup::HTML {
        assert("html"@.len() != "md"@.len());
        assert("html"@ != "markdown"@);
    }
    if m == Markup::Mustache {
        assert("mustache"@ != "markdown"@) by {
            assert("mustache"@[1] != "markdown"@[1]);
        }
        assert("mustache"@.len() != "md"@.len());
        assert("mustache"@.len() != "html"@.len());
    }
}


/// Exactly four extensions have a markup: `md` and `markdown` are Markdown,
/// `html` is HTML and `mustache` is Mustache; every other extension has none,
/// and so a file whose name has no extension, or another one, has no markup.
pub proof fn law_markup_extensions(ext: Seq<char>, path: Seq<char>)
    ensures
        markup_for_extension("md"@) == Some(Markup::Markdown),
        markup_for_extension("markdown"@) == Some(Markup::Markdown),
        markup_for_extension("html"@) == Some(Markup::HTML),
        markup_for_extension("mustache"@) == Some(Markup::Mustache),
        ext != "md"@ && ext != "markdown"@ && ext != "html"@ && ext != "mustache"@
            ==> markup_for_extension(ext) is None,
        paths::extension_of(path) is None ==> markup_of_path(path) is None,
        paths::extension_of(path) matches Some(e) ==> markup_of_path(path) == markup_for_extension(e),
{
    reveal_strlit("md");
    reveal_strlit("markdown");
    reveal_strlit("html");
    reveal_strlit("mustache");
    assert("html"@.len() != "md"@.len());
    assert("html"@ != "markdown"@);
    assert("mustache"@ != "markdown"@) by {
        assert("mustache"@[1] != "markdown"@[1]);
    }
    assert("mustache"@.len() != "md"@.len());
    assert("mustache"@.len() != "html"@.len());
}

/// Where `a` is not empty, holds no fence and does not end in `-`, the first
/// fence in `a` followed by a fence is that fence.
proof fn lemma_fence_closes(a: Seq<char>)
    requires
        a.len() > 0,
        text::first_occurrence(a, fence(), 0) is None,
        a.last() != '-',
    ensures
        text::first_occurrence(a + fence(), fence(), 0) == Some(a.len() as int),
{
    let f = fence();
    let n = a.len() as int;
    let c = a + f;
    text::lemma_first_occurrence(a, f, 0);
    assert(c.subrange(0, n) =~= a);
    assert forall|j: int| 0 <= j < n implies !text::occurs_at(c, f, j) by {
        if j + 3 <= n {
            text::lemma_occurs_in_part(c, f, 0, n, j);
        } else if text::occurs_at(c, f, j) {
            assert(c.subrange(j, j + 3)[n - 1 - j] == c[n - 1]);
            assert(f[n - 1 - j] == '-');
        }
    }
    assert(c.subrange(n, n + 3) =~= f);
    text::lemma_first_occurrence_at(c, f, 0, n);
}

/// A text made of a fence, some front matter, a fence and a body reads back as
/// that front matter and that body, where the front matter is not empty, holds
/// no fence and does not end in `-`, and the body holds no fence.
pub proof fn law_read_back_front_matter(fm: Seq<char>, body: Seq<char>)
    requires
        fm.len() > 0,
        text::first_occurrence(fm, fence(), 0) is None,
        fm.last() != '-',
        text::first_occurrence(body, fence(), 0) is None,
    ensures
        content_pieces(fence() + fm + fence() + body).len() > 0,
        spec_read_content(fence() + fm + fence() + body) == (Some(fm), body),
{
    lemma_fence_closes(fm);
    let f = fence();
    let n = fm.len() as int;
    let s = f + fm + f + body;
    let closed = fm + f;
    text::lemma_first_occurrence(closed, f, 0);
    text::lemma_first_occurrence(body, f, 0);
    // The opening fence.
    assert(s.subrange(0, 3) =~= f);
    text::lemma_first_occurrence_at(s, f, 0, 0);
    // The closing fence, and no fence before it.
    assert(s.subrange(3, n + 6) =~= closed);
    assert forall|j: int| 3 <= j < 3 + n implies !text::occurs_at(s, f, j) by {
        text::lemma_occurs_in_part(s, f, 3, n + 6, j);
    }
    text::lemma_occurs_in_part(s, f, 3, n + 6, 3 + n);
    assert(closed.subrange(n, n + 3) =~= f);
    text::lemma_first_occurrence_at(s, f, 3, 3 + n);
    // No fence in the body.
    assert(s.subrange(n + 6, s.len() as int) =~= body);
    assert forall|j: int| n + 6 <= j implies !text::occurs_at(s, f, j) by {
        if j + 3 <= s.len() {
            text::lemma_occurs_in_part(s, f, n + 6, s.len() as int, j);
        }
    }
    text::lemma_no_occurrence(s, f, n + 6);
    assert(s.subrange(3, 3 + n) =~= fm);
    assert(s.subrange(0, 0) =~= Seq::<char>::empty());
    let ps = split(s, f);
    let p2 = text::pieces_from(s, f, n + 6);
    assert(p2 == seq![body]);
    let p1 = text::pieces_from(s, f, 3);
    assert(p1 == seq![fm] + p2);
    assert(ps == seq![Seq::<char>::empty()] + p1);
    assert(ps =~= seq![Seq::<char>::empty(), fm, body]);
    assert(ps.drop_first() =~= seq![fm, body]);
    assert(drop_leading_empty(ps.drop_first()) == seq![fm, body]);
    assert(content_pieces(s) == seq![fm, body]);
}



/// A text made of some front matter, a fence and a body, with no fence before
/// the front matter, reads back as that front matter and that body too, where
/// the front matter is not empty, holds no fence and does not end in `-`, and
/// the body holds no fence.
pub proof fn law_read_back_unfenced_front_matter(fm: Seq<char>, body: Seq<char>)
    requires
        fm.len() > 0,
        text::first_occurrence(fm, fence(), 0) is None,
        fm.last() != '-',
        text::first_occurrence(body, fence(), 0) is None,
    ensures
        content_pieces(fm + fence() + body).len() > 0,
        spec_read_content(fm + fence() + body) == (Some(fm), body),
{
    let f = fence();
    let n = fm.len() as int;
    let s = fm + f + body;
    let closed = fm + f;
    lemma_fence_closes(fm);
    text::lemma_first_occurrence(closed, f, 0);
    text::lemma_first_occurrence(body, f, 0);
    // The fence after the front matter, and no fence before it.
    assert(s.subrange(0, n + 3) =~= closed);
    assert forall|j: int| 0 <= j < n implies !text::occurs_at(s, f, j) by {
        text::lemma_occurs_in_part(s, f, 0, n + 3, j);
    }
    text::lemma_occurs_in_part(s, f, 0, n + 3, n);
    text::lemma_first_occurrence_at(s, f, 0, n);
    // No fence in the body.
    assert(s.subrange(n + 3, s.len() as int) =~= body);
    assert forall|j: int| n + 3 <= j implies !text::occurs_at(s, f, j) by {
        if j + 3 <= s.len() {
            text::lemma_occurs_in_part(s, f, n + 3, s.len() as int, j);
        }
    }
    text::lemma_no_occurrence(s, f, n + 3);
    assert(s.subrange(0, n) =~= fm);
    let ps = split(s, f);
    let p1 = text::pieces_from(s, f, n + 3);
    assert(p1 == seq![body]);
    assert(ps == seq![fm] + p1);
    assert(ps =~= seq![fm, body]);
    assert(drop_leading_empty(ps) == ps);
    assert(content_pieces(s) == seq![fm, body]);
}

/// A non-empty text without a fence is all body and has no front matter.
pub proof fn law_text_without_fence_is_body(t: Seq<char>)
    requires
        t.len() > 0,
        text::first_occurrence(t, fence(), 0) is None,
    ensures
        content_pieces(t).len() > 0,
        spec_read_content(t) == (None::<Seq<char>>, t),
{
    assert(t.subrange(0, t.len() as int) =~= t);
    assert(split(t, fence()) == seq![t]);
    assert(content_pieces(t) == seq![t]);
}

} // verus!
