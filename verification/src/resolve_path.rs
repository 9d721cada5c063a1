//! Resolving a path relative to a base directory into a normalized absolute path
//!
//! Resolution removes `.` and `..` from the path, where `.` is removed without affecting the
//! rest of the path and `..` removes its parent from the path. Windows extended-length
//! (verbatim) paths disallow string parsing, so `..` and `.` are not resolved by the operating
//! system in such paths; this module resolves them itself.
//!
//! Paths are strings written in one of two styles. In the Unix style, `/` separates components
//! and a path is absolute when it starts with `/`. In the Windows style, both `/` and `\`
//! separate components, and a path may begin with a prefix, read as the standard library reads
//! Windows paths: a drive (`C:`), a share (`\\server\share`), a device (`\\.\COM1`), or a
//! verbatim prefix (`\\?\C:`, `\\?\UNC\server\share`, `\\?\name`). Every prefix but a
//! drive implies a root; a path is absolute when it has a prefix and a root.
//!
//! A relative path is joined to the base directory as the standard library joins paths: as
//! the base, a separator and the path; but onto a verbatim base, `.` and `..` of the path are
//! resolved while joining (a `..` removes only a name), and no separator is written when
//! nothing follows the base's prefix.

use vstd::prelude::*;
use vstd::string::*;

verus! {

/// The conventions a path string is written in
#[derive(Debug, Clone, Copy, PartialEq, Eq, Structural)]
pub enum PathStyle {
    /// `/` separates components; a path is absolute when it starts with `/`
    Unix,
    /// `\` (or `/`) separates components; a path may start with a drive prefix
    Windows,
}

impl PathStyle {
    /// The separator that normalized paths of this style are written with
    pub open spec fn separator(self) -> char {
        match self {
            PathStyle::Unix => '/',
            PathStyle::Windows => '\\',
        }
    }

    /// The path style of the platform this library was built for
    pub fn native() -> (style: PathStyle) {
        if main_separator() == '\\' {
            PathStyle::Windows
        } else {
            PathStyle::Unix
        }
    }
}

/// `std::path::MAIN_SEPARATOR`: the separator of path components on the platform the program
/// was built for, which the standard library documents as `/` on Unix and `\` on Windows
#[verifier::external_body]
fn main_separator() -> (sep: char)
    ensures
        sep == '/' || sep == '\\',
{
    std::path::MAIN_SEPARATOR
}

/// Whether `c` separates components of a path written in the given style
pub open spec fn is_separator(c: char, style: PathStyle) -> bool {
    c == '/' || (style == PathStyle::Windows && c == '\\')
}

/// An ASCII letter, as a drive prefix names a drive
pub open spec fn is_drive_letter(c: char) -> bool {
    ('a' <= c && c <= 'z') || ('A' <= c && c <= 'Z')
}

/// Whether `c` separates components of a Windows path: a slash or a backslash
pub open spec fn is_slash(c: char) -> bool {
    c == '/' || c == '\\'
}

/// The position of the first separator at or after position `i` of the path (only a backslash
/// in a verbatim path), or the path's length when there is none
pub open spec fn next_separator(p: Seq<char>, i: int, verbatim: bool) -> int
    decreases p.len() - i,
{
    if i >= p.len() {
        p.len() as int
    } else if p[i] == '\\' || (!verbatim && p[i] == '/') {
        i
    } else {
        next_separator(p, i + 1, verbatim)
    }
}

/// The kinds of prefix a Windows path may begin with
#[derive(Debug, Clone, Copy, PartialEq, Eq, Structural)]
pub enum WindowsPrefix {
    /// `\\?\name`
    Verbatim,
    /// `\\?\UNC\server\share`
    VerbatimUnc,
    /// `\\?\C:`
    VerbatimDisk,
    /// `\\.\name`
    DeviceNs,
    /// `\\server\share`
    Unc,
    /// `C:`
    Disk,
}

/// Whether the path starts with `\\?\`, written with backslashes only
pub open spec fn starts_verbatim(p: Seq<char>) -> bool {
    p.len() >= 4 && p[0] == '\\' && p[1] == '\\' && p[2] == '?' && p[3] == '\\'
}

/// Whether a verbatim path goes on with `UNC` and a separator
pub open spec fn starts_verbatim_unc(p: Seq<char>) -> bool {
    p.len() >= 8 && p[4] == 'U' && p[5] == 'N' && p[6] == 'C' && is_slash(p[7])
}

/// Whether a verbatim path goes on with exactly a drive (`C:`), then a backslash or its end
pub open spec fn verbatim_drive(p: Seq<char>) -> bool {
    &&& p.len() >= 6
    &&& is_drive_letter(p[4])
    &&& p[5] == ':'
    &&& (p.len() == 6 || p[6] == '\\')
}

/// Whether the path starts with a drive prefix such as `C:`
pub open spec fn has_disk_prefix(p: Seq<char>) -> bool {
    p.len() >= 2 && is_drive_letter(p[0]) && p[1] == ':'
}

/// The prefix of a Windows path, as its kind and its length, when it has one. After two
/// separators come a verbatim prefix (`\\?\` written with backslashes: a server and a share
/// after `UNC`, an exact drive, or else a name, each ending at a backslash), a device name
/// (after `.` and a separator) or a server and a share (both non-empty), each ending at a
/// separator; otherwise a drive letter and a colon make the prefix.
pub open spec fn windows_prefix(p: Seq<char>) -> Option<(WindowsPrefix, int)> {
    if p.len() >= 2 && is_slash(p[0]) && is_slash(p[1]) {
        if starts_verbatim(p) {
            if starts_verbatim_unc(p) {
                let k = next_separator(p, 8, true);
                let m = if k < p.len() {
                    next_separator(p, k + 1, true)
                } else {
                    k
                };
                Some((WindowsPrefix::VerbatimUnc, if m > k + 1 { m } else { k }))
            } else if verbatim_drive(p) {
                Some((WindowsPrefix::VerbatimDisk, 6))
            } else {
                Some((WindowsPrefix::Verbatim, next_separator(p, 4, true)))
            }
        } else if p.len() >= 4 && p[2] == '.' && is_slash(p[3]) {
            Some((WindowsPrefix::DeviceNs, next_separator(p, 4, false)))
        } else {
            let k = next_separator(p, 2, false);
            let m = if k < p.len() {
                next_separator(p, k + 1, false)
            } else {
                k
            };
            if k > 2 && m > k + 1 {
                Some((WindowsPrefix::Unc, m))
            } else {
                None
            }
        }
    } else if has_disk_prefix(p) {
        Some((WindowsPrefix::Disk, 2))
    } else {
        None
    }
}

/// The number of characters of the path's prefix (zero when it has none, and always zero in
/// the Unix style)
pub open spec fn prefix_len(p: Seq<char>, style: PathStyle) -> nat {
    match style {
        PathStyle::Unix => 0,
        PathStyle::Windows => match windows_prefix(p) {
            Some((_, n)) => n as nat,
            None => 0,
        },
    }
}

/// Whether a separator follows the path's prefix right away
pub open spec fn has_physical_root(p: Seq<char>, style: PathStyle) -> bool {
    p.len() > prefix_len(p, style) && is_separator(p[prefix_len(p, style) as int], style)
}

/// Whether the path has a root: a separator right after its prefix, or a prefix other than a
/// drive, which implies one
pub open spec fn has_root(p: Seq<char>, style: PathStyle) -> bool {
    ||| has_physical_root(p, style)
    ||| (style == PathStyle::Windows && (windows_prefix(p) matches Some((kind, _)) && kind
        != WindowsPrefix::Disk))
}

/// Whether the normalized path is written with a root: a separator right after its prefix, or
/// a share or device prefix, whose root is written even where the path leaves it implied
pub open spec fn root_written(p: Seq<char>, style: PathStyle) -> bool {
    ||| has_physical_root(p, style)
    ||| (style == PathStyle::Windows && (windows_prefix(p) matches Some((kind, _)) && (kind
        == WindowsPrefix::Unc || kind == WindowsPrefix::DeviceNs)))
}

/// Whether the path is absolute: it has a root, and in the Windows style also a prefix
pub open spec fn path_is_absolute(p: Seq<char>, style: PathStyle) -> bool {
    has_root(p, style) && (style == PathStyle::Unix || prefix_len(p, style) > 0)
}

/// Whether the Windows path has a verbatim prefix
pub open spec fn has_verbatim_prefix(p: Seq<char>) -> bool {
    windows_prefix(p) matches Some((kind, _)) && (kind == WindowsPrefix::Verbatim || kind
        == WindowsPrefix::VerbatimUnc || kind == WindowsPrefix::VerbatimDisk)
}

/// The pieces that are not empty, in order
pub open spec fn nonempty_pieces(pieces: Seq<Seq<char>>) -> Seq<Seq<char>>
    decreases pieces.len(),
{
    if pieces.len() == 0 {
        Seq::empty()
    } else if pieces.last().len() == 0 {
        nonempty_pieces(pieces.drop_last())
    } else {
        nonempty_pieces(pieces.drop_last()).push(pieces.last())
    }
}

/// One step of joining a path onto a verbatim base: empty pieces and `.` are skipped, `..`
/// removes the last component when it is a name (not a `.` or `..` of the base), and any other
/// piece is appended
pub open spec fn verbatim_step(items: Seq<Seq<char>>, piece: Seq<char>) -> Seq<Seq<char>> {
    if piece.len() == 0 || piece == seq!['.'] {
        items
    } else if piece == seq!['.', '.'] {
        if items.len() > 0 && items.last() != seq!['.'] && items.last() != seq!['.', '.'] {
            items.drop_last()
        } else {
            items
        }
    } else {
        items.push(piece)
    }
}

/// The components once the pieces are joined one after another onto `items`
pub open spec fn verbatim_steps(items: Seq<Seq<char>>, pieces: Seq<Seq<char>>) -> Seq<Seq<char>>
    decreases pieces.len(),
{
    if pieces.len() == 0 {
        items
    } else {
        verbatim_step(verbatim_steps(items, pieces.drop_last()), pieces.last())
    }
}

/// A relative path without prefix joined onto a Windows base with a verbatim prefix: the base's
/// prefix, then a backslash where a root or any component follows, then the components: those
/// of the base (its `.` and `..` kept), or none when the path has a root, followed by those of
/// the path joined one by one
pub open spec fn verbatim_joined(path: Seq<char>, base: Seq<char>) -> Seq<char> {
    let pb = prefix_len(base, PathStyle::Windows) as int;
    let base_root = has_physical_root(base, PathStyle::Windows);
    let rooted = path.len() > 0 && is_slash(path[0]);
    let start = if rooted {
        Seq::<Seq<char>>::empty()
    } else {
        nonempty_pieces(split_on(base.skip(if base_root { pb + 1 } else { pb }), '\\'))
    };
    let items = verbatim_steps(start, split_on(unify_separators(path, PathStyle::Windows), '\\'));
    base.take(pb) + (if base_root || rooted || items.len() > 0 {
        seq!['\\']
    } else {
        Seq::empty()
    }) + join_components(items, '\\')
}

/// The base directory joined with the path: the path alone when it is absolute or has a
/// prefix; the path joined onto a base with a verbatim prefix as `verbatim_joined` says, when
/// it is not empty; the base's prefix followed by the path when the path has a root but no
/// prefix; and otherwise the base, a separator and the path.
pub open spec fn joined_path(path: Seq<char>, base: Seq<char>, style: PathStyle) -> Seq<char> {
    if path_is_absolute(path, style) || prefix_len(path, style) > 0 {
        path
    } else if style == PathStyle::Windows && has_verbatim_prefix(base) && path.len() > 0 {
        verbatim_joined(path, base)
    } else if style == PathStyle::Windows && path.len() > 0 && is_separator(path[0], style) {
        base.take(prefix_len(base, style) as int) + path
    } else {
        base.push(style.separator()) + path
    }
}

/// The path with every slash or backslash replaced by the style's own separator
pub open spec fn unify_separators(p: Seq<char>, style: PathStyle) -> Seq<char> {
    p.map_values(
        |c: char|
            if is_separator(c, PathStyle::Windows) {
                style.separator()
            } else {
                c
            },
    )
}

/// The pieces of `s` between occurrences of `sep`, in order (always at least one piece)
pub open spec fn split_on(s: Seq<char>, sep: char) -> Seq<Seq<char>>
    decreases s.len(),
{
    if s.len() == 0 {
        seq![Seq::empty()]
    } else {
        let pieces = split_on(s.drop_last(), sep);
        if s.last() == sep {
            pieces.push(Seq::empty())
        } else {
            pieces.update(pieces.len() - 1, pieces.last().push(s.last()))
        }
    }
}

/// One step of normalization: empty components and `.` are dropped, `..` removes the last
/// component (if any), and any other component is appended
pub open spec fn normalize_step(parts: Seq<Seq<char>>, piece: Seq<char>) -> Seq<Seq<char>> {
    if piece.len() == 0 || piece == seq!['.'] {
        parts
    } else if piece == seq!['.', '.'] {
        if parts.len() > 0 {
            parts.drop_last()
        } else {
            parts
        }
    } else {
        parts.push(piece)
    }
}

/// The components that remain once the pieces are normalized one after another, from none
pub open spec fn normalize_pieces(pieces: Seq<Seq<char>>) -> Seq<Seq<char>>
    decreases pieces.len(),
{
    if pieces.len() == 0 {
        Seq::empty()
    } else {
        normalize_step(normalize_pieces(pieces.drop_last()), pieces.last())
    }
}

/// The normal components that remain of a path (written with its style's separator only)
/// once `.` and `..` are resolved
pub open spec fn normalized_components(p: Seq<char>, style: PathStyle) -> Seq<Seq<char>> {
    normalize_pieces(split_on(p.skip(prefix_len(p, style) as int), style.separator()))
}

/// The components written one after another with `sep` between each two
pub open spec fn join_components(parts: Seq<Seq<char>>, sep: char) -> Seq<char>
    decreases parts.len(),
{
    if parts.len() == 0 {
        Seq::empty()
    } else if parts.len() == 1 {
        parts[0]
    } else {
        join_components(parts.drop_last(), sep).push(sep) + parts.last()
    }
}

/// The normalized form of a path written with its style's separator only: its prefix, its
/// root (where it is written), and its normalized components joined by the separator
pub open spec fn normalized_path(p: Seq<char>, style: PathStyle) -> Seq<char> {
    p.take(prefix_len(p, style) as int) + (if root_written(p, style) {
        seq![style.separator()]
    } else {
        Seq::empty()
    }) + join_components(normalized_components(p, style), style.separator())
}

/// The path resolved against the base directory and normalized
pub open spec fn resolved_path(path: Seq<char>, base: Seq<char>, style: PathStyle) -> Seq<char> {
    normalized_path(unify_separators(joined_path(path, base, style), style), style)
}

/// What resolving yields: the resolved path when the base directory is absolute, and nothing
/// otherwise
pub open spec fn resolve_outcome(path: Seq<char>, base: Seq<char>, style: PathStyle) -> Option<
    Seq<char>,
> {
    if path_is_absolute(base, style) {
        Some(resolved_path(path, base, style))
    } else {
        None
    }
}

/// The character views of a sequence of character vectors
pub open spec fn views(v: Seq<Vec<char>>) -> Seq<Seq<char>> {
    v.map_values(|x: Vec<char>| x@)
}

/// Resolves a path relative to a base directory written in the given style. Returns an
/// absolute path that is normalized: written with the style's separator only, with its prefix
/// and root first and without any `.`, `..` or empty component.
///
/// The base directory path must be absolute.
pub fn resolve_path(path: &str, base_dir: &str, style: PathStyle) -> (resolved: String)
    requires
        path_is_absolute(base_dir@, style),
    ensures
        resolved@ == resolved_path(path@, base_dir@, style),
{
    let path = chars_of(path);
    let base = chars_of(base_dir);
    // Create an absolute path, using base_dir only if necessary
    let joined = join_paths(&path, &base, style);
    // All slashes are converted to the style's separator so that the components of the path
    // can be extracted
    let unified = unify_chars(&joined, style);
    let normalized = normalize_chars(&unified, style);
    string_of(&normalized)
}

/// Whether the path is absolute in the given style
pub fn is_absolute(path: &str, style: PathStyle) -> (absolute: bool)
    ensures
        absolute == path_is_absolute(path@, style),
{
    let chars = chars_of(path);
    is_absolute_chars(&chars, style)
}

/// Extension trait that provides the ability to resolve a path relative to a base directory
pub trait ResolvePath {
    /// Resolves a path relative to the given base directory, in the path style of the platform
    /// this library was built for, into a normalized path (fixes any platform differences),
    /// which is absolute unless it is a Windows path relative to the current directory of a
    /// drive (such as `D:x`). The base directory path must be absolute: a relative one is
    /// refused with `None` rather than resolved against.
    fn resolve(&self, base_dir: &str) -> Option<String>;
}

impl ResolvePath for str {
    fn resolve(&self, base_dir: &str) -> (resolved: Option<String>)
        ensures
            exists|style: PathStyle|
                resolve_outcome(self@, base_dir@, style) == match resolved {
                    Some(r) => Some(r@),
                    None => None,
                },
    {
        let style = PathStyle::native();
        let resolved = if is_absolute(base_dir, style) {
            Some(resolve_path(self, base_dir, style))
        } else {
            None
        };
        assert(resolve_outcome(self@, base_dir@, style) == match resolved {
            Some(r) => Some(r@),
            None => None,
        });
        resolved
    }
}

/// `String::push`: appends the character to the end of the string
#[verifier::external_body]
fn push_char(s: &mut String, c: char)
    ensures
        final(s)@ == old(s)@.push(c),
{
    s.push(c)
}

/// The characters of a string, in order
fn chars_of(s: &str) -> (chars: Vec<char>)
    ensures
        chars@ == s@,
{
    let n = s.unicode_len();
    let mut chars: Vec<char> = Vec::new();
    let mut i: usize = 0;
    while i < n
        invariant
            n == s@.len(),
            i <= n,
            chars@ == s@.take(i as int),
        decreases n - i,
    {
        let c = s.get_char(i);
        chars.push(c);
        assert(s@.take(i + 1) =~= s@.take(i as int).push(c));
        i += 1;
    }
    assert(s@.take(n as int) =~= s@);
    chars
}

/// The string made of the characters, in order
fn string_of(chars: &Vec<char>) -> (s: String)
    ensures
        s@ == chars@,
{
    let mut s = String::new();
    let mut i: usize = 0;
    while i < chars.len()
        invariant
            i <= chars.len(),
            s@ == chars@.take(i as int),
        decreases chars.len() - i,
    {
        push_char(&mut s, chars[i]);
        assert(chars@.take(i + 1) =~= chars@.take(i as int).push(chars[i as int]));
        i += 1;
    }
    assert(chars@.take(chars.len() as int) =~= chars@);
    s
}

/// Appends the characters `src[from..to]` to `out`
fn append_chars(out: &mut Vec<char>, src: &Vec<char>, from: usize, to: usize)
    requires
        from <= to <= src.len(),
    ensures
        final(out)@ == old(out)@ + src@.subrange(from as int, to as int),
{
    let ghost start = out@;
    let mut i = from;
    while i < to
        invariant
            from <= i <= to,
            to <= src.len(),
            out@ == start + src@.subrange(from as int, i as int),
        decreases to - i,
    {
        out.push(src[i]);
        assert(src@.subrange(from as int, i + 1) =~= src@.subrange(from as int, i as int).push(
            src[i as int],
        ));
        i += 1;
    }
}

fn is_drive_letter_char(c: char) -> (b: bool)
    ensures
        b == is_drive_letter(c),
{
    ('a' <= c && c <= 'z') || ('A' <= c && c <= 'Z')
}

fn is_separator_char(c: char, style: PathStyle) -> (b: bool)
    ensures
        b == is_separator(c, style),
{
    c == '/' || (style == PathStyle::Windows && c == '\\')
}

fn separator_of(style: PathStyle) -> (sep: char)
    ensures
        sep == style.separator(),
{
    match style {
        PathStyle::Unix => '/',
        PathStyle::Windows => '\\',
    }
}

/// Where the first separator at or after position `i` is, as `next_separator` says
fn next_separator_at(p: &Vec<char>, i: usize, verbatim: bool) -> (k: usize)
    requires
        i <= p.len(),
    ensures
        k == next_separator(p@, i as int, verbatim),
        i <= k <= p.len(),
{
    let mut k = i;
    while k < p.len() && !(p[k] == '\\' || (!verbatim && p[k] == '/'))
        invariant
            i <= k <= p.len(),
            next_separator(p@, k as int, verbatim) == next_separator(p@, i as int, verbatim),
        decreases p.len() - k,
    {
        k += 1;
    }
    k
}

/// A prefix ends within the path and is not empty
proof fn lemma_prefix_bounds(p: Seq<char>)
    ensures
        windows_prefix(p) matches Some((_, n)) ==> 0 < n <= p.len(),
        windows_prefix(p) matches Some((kind, n)) ==> (kind == WindowsPrefix::Disk || n >= 4),
{
    if p.len() >= 4 {
        lemma_next_separator_bounds(p, 4, true);
        lemma_next_separator_bounds(p, 4, false);
    }
    if p.len() >= 8 {
        lemma_next_separator_bounds(p, 8, true);
        let k = next_separator(p, 8, true);
        if k < p.len() {
            lemma_next_separator_bounds(p, k + 1, true);
        }
    }
    if p.len() >= 2 {
        lemma_next_separator_bounds(p, 2, false);
        let k = next_separator(p, 2, false);
        if k < p.len() {
            lemma_next_separator_bounds(p, k + 1, false);
        }
    }
}

/// The next separator is found at or after where the search starts, within the path
proof fn lemma_next_separator_bounds(p: Seq<char>, i: int, verbatim: bool)
    requires
        0 <= i <= p.len(),
    ensures
        i <= next_separator(p, i, verbatim) <= p.len(),
    decreases p.len() - i,
{
    if i < p.len() {
        lemma_next_separator_bounds(p, i + 1, verbatim);
    }
}

/// The prefix of a Windows path, as `windows_prefix` says
fn windows_prefix_of(p: &Vec<char>) -> (prefix: Option<(WindowsPrefix, usize)>)
    ensures
        match prefix {
            Some((kind, n)) => windows_prefix(p@) == Some((kind, n as int)),
            None => windows_prefix(p@) is None,
        },
{
    let len = p.len();
    if len >= 2 && is_separator_char(p[0], PathStyle::Windows) && is_separator_char(p[1], PathStyle::Windows) {
        if len >= 4 && p[0] == '\\' && p[1] == '\\' && p[2] == '?' && p[3] == '\\' {
            if len >= 8 && p[4] == 'U' && p[5] == 'N' && p[6] == 'C' && is_separator_char(p[7], PathStyle::Windows) {
                let k = next_separator_at(p, 8, true);
                let m = if k < len {
                    next_separator_at(p, k + 1, true)
                } else {
                    k
                };
                Some((WindowsPrefix::VerbatimUnc, if m - k > 1 { m } else { k }))
            } else if len >= 6 && is_drive_letter_char(p[4]) && p[5] == ':' && (len == 6 || p[6] == '\\') {
                Some((WindowsPrefix::VerbatimDisk, 6))
            } else {
                Some((WindowsPrefix::Verbatim, next_separator_at(p, 4, true)))
            }
        } else if len >= 4 && p[2] == '.' && is_separator_char(p[3], PathStyle::Windows) {
            Some((WindowsPrefix::DeviceNs, next_separator_at(p, 4, false)))
        } else {
            let k = next_separator_at(p, 2, false);
            let m = if k < len {
                next_separator_at(p, k + 1, false)
            } else {
                k
            };
            if k > 2 && m - k > 1 {
                Some((WindowsPrefix::Unc, m))
            } else {
                None
            }
        }
    } else if len >= 2 && is_drive_letter_char(p[0]) && p[1] == ':' {
        Some((WindowsPrefix::Disk, 2))
    } else {
        None
    }
}

fn prefix_length(p: &Vec<char>, style: PathStyle) -> (n: usize)
    ensures
        n == prefix_len(p@, style),
        n <= p.len(),
{
    proof {
        lemma_prefix_bounds(p@);
    }
    match style {
        PathStyle::Unix => 0,
        PathStyle::Windows => match windows_prefix_of(p) {
            Some((_, n)) => n,
            None => 0,
        },
    }
}

fn has_root_chars(p: &Vec<char>, style: PathStyle) -> (root: bool)
    ensures
        root == has_root(p@, style),
{
    let n = prefix_length(p, style);
    let implied = match style {
        PathStyle::Unix => false,
        PathStyle::Windows => match windows_prefix_of(p) {
            Some((kind, _)) => !matches!(kind, WindowsPrefix::Disk),
            None => false,
        },
    };
    (p.len() > n && is_separator_char(p[n], style)) || implied
}

fn root_written_chars(p: &Vec<char>, style: PathStyle) -> (root: bool)
    ensures
        root == root_written(p@, style),
{
    let n = prefix_length(p, style);
    let implied = match style {
        PathStyle::Unix => false,
        PathStyle::Windows => match windows_prefix_of(p) {
            Some((kind, _)) => matches!(kind, WindowsPrefix::Unc | WindowsPrefix::DeviceNs),
            None => false,
        },
    };
    (p.len() > n && is_separator_char(p[n], style)) || implied
}

fn is_absolute_chars(p: &Vec<char>, style: PathStyle) -> (absolute: bool)
    ensures
        absolute == path_is_absolute(p@, style),
{
    has_root_chars(p, style) && (style == PathStyle::Unix || prefix_length(p, style) > 0)
}

fn join_paths(path: &Vec<char>, base: &Vec<char>, style: PathStyle) -> (joined: Vec<char>)
    ensures
        joined@ == joined_path(path@, base@, style),
{
    if !(is_absolute_chars(path, style) || prefix_length(path, style) > 0) && style == PathStyle::Windows
        && path.len() > 0 && matches!(
        windows_prefix_of(base),
        Some((WindowsPrefix::Verbatim, _)) | Some((WindowsPrefix::VerbatimUnc, _)) | Some(
            (WindowsPrefix::VerbatimDisk, _),
        )
    ) {
        return verbatim_join_chars(path, base);
    }
    let mut joined: Vec<char> = Vec::new();
    if is_absolute_chars(path, style) || prefix_length(path, style) > 0 {
        // An absolute path, or one with its own prefix, replaces the base
    } else if style == PathStyle::Windows && path.len() > 0 && is_separator_char(path[0], style) {
        // A rooted path without prefix keeps the prefix of the base
        let n = prefix_length(base, style);
        append_chars(&mut joined, base, 0, n);
    } else {
        append_chars(&mut joined, base, 0, base.len());
        joined.push(separator_of(style));
    }
    append_chars(&mut joined, path, 0, path.len());
    assert(base@.subrange(0, base@.len() as int) =~= base@);
    assert(path@.subrange(0, path@.len() as int) =~= path@);
    joined
}

/// A relative path without prefix joined onto a base with a verbatim prefix
fn verbatim_join_chars(path: &Vec<char>, base: &Vec<char>) -> (joined: Vec<char>)
    requires
        has_verbatim_prefix(base@),
        path@.len() > 0,
    ensures
        joined@ == verbatim_joined(path@, base@),
{
    let pb = prefix_length(base, PathStyle::Windows);
    let base_root = pb < base.len() && is_separator_char(base[pb], PathStyle::Windows);
    let rooted = is_separator_char(path[0], PathStyle::Windows);
    let start = if rooted {
        let empty: Vec<Vec<char>> = Vec::new();
        assert(views(empty@) =~= Seq::<Seq<char>>::empty());
        empty
    } else {
        nonempty_parts(base, if base_root { pb + 1 } else { pb }, '\\')
    };
    assert(base_root == has_physical_root(base@, PathStyle::Windows));
    assert(views(start@) == (if rooted {
        Seq::<Seq<char>>::empty()
    } else {
        nonempty_pieces(split_on(base@.skip(if base_root { pb + 1 } else { pb as int }), '\\'))
    }));
    let unified = unify_chars(path, PathStyle::Windows);
    let items = verbatim_parts(start, &unified, '\\');
    assert(views(items@).len() == items@.len());
    let mut joined: Vec<char> = Vec::new();
    append_chars(&mut joined, base, 0, pb);
    assert(base@.subrange(0, pb as int) =~= base@.take(pb as int));
    if base_root || rooted || items.len() > 0 {
        joined.push('\\');
    }
    let ghost head = joined@;
    push_joined(&mut joined, &items, '\\');
    assert(head =~= base@.take(pb as int) + (if base_root || rooted || items@.len() > 0 {
        seq!['\\']
    } else {
        Seq::empty()
    }));
    joined
}

/// Appends the piece to the components when it is not empty
fn keep_nonempty(parts: &mut Vec<Vec<char>>, piece: Vec<char>)
    ensures
        views(final(parts)@) == if piece@.len() == 0 {
            views(old(parts)@)
        } else {
            views(old(parts)@).push(piece@)
        },
{
    if piece.len() > 0 {
        let ghost before = parts@;
        let ghost pv = piece@;
        parts.push(piece);
        assert(views(parts@) =~= views(before).push(pv));
    }
}

/// The pieces of `p[start..]` split on `sep` that are not empty
fn nonempty_parts(p: &Vec<char>, start: usize, sep: char) -> (parts: Vec<Vec<char>>)
    requires
        start <= p.len(),
    ensures
        views(parts@) == nonempty_pieces(split_on(p@.skip(start as int), sep)),
{
    let ghost rest = p@.skip(start as int);
    let mut parts: Vec<Vec<char>> = Vec::new();
    let mut current: Vec<char> = Vec::new();
    let mut k: usize = start;
    assert(rest.take(0) =~= Seq::<char>::empty());
    assert(views(parts@) =~= Seq::<Seq<char>>::empty());
    while k < p.len()
        invariant
            start <= k <= p.len(),
            rest == p@.skip(start as int),
            split_on(rest.take(k - start), sep).len() >= 1,
            views(parts@) == nonempty_pieces(split_on(rest.take(k - start), sep).drop_last()),
            current@ == split_on(rest.take(k - start), sep).last(),
        decreases p.len() - k,
    {
        let c = p[k];
        let ghost pieces = split_on(rest.take(k - start), sep);
        assert(rest.take(k + 1 - start).drop_last() =~= rest.take(k - start));
        assert(rest.take(k + 1 - start).last() == c);
        if c == sep {
            let piece = current;
            current = Vec::new();
            keep_nonempty(&mut parts, piece);
            assert(split_on(rest.take(k + 1 - start), sep) == pieces.push(Seq::empty()));
            assert(pieces.push(Seq::empty()).drop_last() =~= pieces);
            assert(pieces =~= pieces.drop_last().push(pieces.last()));
        } else {
            current.push(c);
            assert(split_on(rest.take(k + 1 - start), sep) == pieces.update(
                pieces.len() - 1,
                pieces.last().push(c),
            ));
            assert(pieces.update(pieces.len() - 1, pieces.last().push(c)).drop_last()
                =~= pieces.drop_last());
        }
        k += 1;
    }
    let ghost pieces = split_on(rest.take(k - start), sep);
    assert(rest.take(k - start) =~= rest);
    keep_nonempty(&mut parts, current);
    assert(pieces =~= pieces.drop_last().push(pieces.last()));
    parts
}

/// Applies one step of joining onto a verbatim base to the components collected so far
fn apply_verbatim_step(items: &mut Vec<Vec<char>>, piece: Vec<char>)
    ensures
        views(final(items)@) == verbatim_step(views(old(items)@), piece@),
{
    let n = piece.len();
    if n == 0 || (n == 1 && piece[0] == '.') {
        if n == 1 {
            assert(piece@ =~= seq!['.']);
        }
    } else if n == 2 && piece[0] == '.' && piece[1] == '.' {
        assert(piece@ =~= seq!['.', '.']);
        let len = items.len();
        if len > 0 {
            let last_len = items[len - 1].len();
            let is_dot = last_len == 1 && items[len - 1][0] == '.';
            let is_dots = last_len == 2 && items[len - 1][0] == '.' && items[len - 1][1] == '.';
            let ghost lv = items@[len - 1]@;
            assert(is_dot <==> lv == seq!['.']) by {
                if lv == seq!['.'] {
                    assert(lv.len() == 1 && lv[0] == '.');
                }
                if is_dot {
                    assert(lv =~= seq!['.']);
                }
            }
            assert(is_dots <==> lv == seq!['.', '.']) by {
                if lv == seq!['.', '.'] {
                    assert(lv.len() == 2 && lv[0] == '.' && lv[1] == '.');
                }
                if is_dots {
                    assert(lv =~= seq!['.', '.']);
                }
            }
            assert(views(items@).last() == lv);
            if !is_dot && !is_dots {
                let ghost before = items@;
                items.pop();
                assert(views(items@) =~= views(before).drop_last());
            }
        }
    } else {
        assert(piece@ != seq!['.']) by {
            if piece@ == seq!['.'] {
                assert(piece@.len() == 1 && piece@[0] == '.');
            }
        }
        assert(piece@ != seq!['.', '.']) by {
            if piece@ == seq!['.', '.'] {
                assert(piece@.len() == 2 && piece@[0] == '.' && piece@[1] == '.');
            }
        }
        let ghost before = items@;
        let ghost pv = piece@;
        items.push(piece);
        assert(views(items@) =~= views(before).push(pv));
    }
}

/// The components once the pieces of `p`, split on `sep`, are joined one by one onto `items`
fn verbatim_parts(items: Vec<Vec<char>>, p: &Vec<char>, sep: char) -> (parts: Vec<Vec<char>>)
    ensures
        views(parts@) == verbatim_steps(views(items@), split_on(p@, sep)),
{
    let ghost init = views(items@);
    let ghost rest = p@;
    let mut parts = items;
    let mut current: Vec<char> = Vec::new();
    let mut k: usize = 0;
    assert(rest.take(0) =~= Seq::<char>::empty());
    assert(split_on(Seq::<char>::empty(), sep).drop_last() =~= Seq::<Seq<char>>::empty());
    while k < p.len()
        invariant
            k <= p.len(),
            rest == p@,
            split_on(rest.take(k as int), sep).len() >= 1,
            views(parts@) == verbatim_steps(init, split_on(rest.take(k as int), sep).drop_last()),
            current@ == split_on(rest.take(k as int), sep).last(),
        decreases p.len() - k,
    {
        let c = p[k];
        let ghost pieces = split_on(rest.take(k as int), sep);
        assert(rest.take(k + 1).drop_last() =~= rest.take(k as int));
        assert(rest.take(k + 1).last() == c);
        if c == sep {
            let piece = current;
            current = Vec::new();
            apply_verbatim_step(&mut parts, piece);
            assert(split_on(rest.take(k + 1), sep) == pieces.push(Seq::empty()));
            assert(pieces.push(Seq::empty()).drop_last() =~= pieces);
            assert(pieces =~= pieces.drop_last().push(pieces.last()));
        } else {
            current.push(c);
            assert(split_on(rest.take(k + 1), sep) == pieces.update(
                pieces.len() - 1,
                pieces.last().push(c),
            ));
            assert(pieces.update(pieces.len() - 1, pieces.last().push(c)).drop_last()
                =~= pieces.drop_last());
        }
        k += 1;
    }
    let ghost pieces = split_on(rest.take(k as int), sep);
    assert(rest.take(k as int) =~= rest);
    apply_verbatim_step(&mut parts, current);
    assert(pieces =~= pieces.drop_last().push(pieces.last()));
    parts
}

fn unify_chars(p: &Vec<char>, style: PathStyle) -> (unified: Vec<char>)
    ensures
        unified@ == unify_separators(p@, style),
{
    let sep = separator_of(style);
    let mut unified: Vec<char> = Vec::new();
    let mut i: usize = 0;
    while i < p.len()
        invariant
            i <= p.len(),
            sep == style.separator(),
            unified@ == unify_separators(p@.take(i as int), style),
        decreases p.len() - i,
    {
        let c = p[i];
        if is_separator_char(c, PathStyle::Windows) {
            unified.push(sep);
        } else {
            unified.push(c);
        }
        assert(unify_separators(p@.take(i + 1), style) =~= unify_separators(
            p@.take(i as int),
            style,
        ).push(unified@.last()));
        i += 1;
    }
    assert(p@.take(p.len() as int) =~= p@);
    unified
}

/// Splitting always yields at least one piece
proof fn lemma_split_on_nonempty(s: Seq<char>, sep: char)
    ensures
        split_on(s, sep).len() >= 1,
    decreases s.len(),
{
    if s.len() > 0 {
        lemma_split_on_nonempty(s.drop_last(), sep);
    }
}

/// Applies one normalization step to the components collected so far
fn apply_step(parts: &mut Vec<Vec<char>>, piece: Vec<char>)
    ensures
        views(final(parts)@) == normalize_step(views(old(parts)@), piece@),
{
    let n = piece.len();
    if n == 0 || (n == 1 && piece[0] == '.') {
        if n == 1 {
            assert(piece@ =~= seq!['.']);
        }
    } else if n == 2 && piece[0] == '.' && piece[1] == '.' {
        assert(piece@ =~= seq!['.', '.']);
        if parts.len() > 0 {
            let ghost before = parts@;
            parts.pop();
            assert(views(parts@) =~= views(before).drop_last());
        }
    } else {
        assert(piece@ != seq!['.']) by {
            if piece@ == seq!['.'] {
                assert(piece@.len() == 1 && piece@[0] == '.');
            }
        }
        assert(piece@ != seq!['.', '.']) by {
            if piece@ == seq!['.', '.'] {
                assert(piece@.len() == 2 && piece@[0] == '.' && piece@[1] == '.');
            }
        }
        let ghost before = parts@;
        let ghost pv = piece@;
        parts.push(piece);
        assert(views(parts@) =~= views(before).push(pv));
    }
}

/// The normalized components of `p[start..]`, split on `sep`
fn normalize_parts(p: &Vec<char>, start: usize, sep: char) -> (parts: Vec<Vec<char>>)
    requires
        start <= p.len(),
    ensures
        views(parts@) == normalize_pieces(split_on(p@.skip(start as int), sep)),
{
    let ghost rest = p@.skip(start as int);
    let mut parts: Vec<Vec<char>> = Vec::new();
    let mut current: Vec<char> = Vec::new();
    let mut k: usize = start;
    assert(rest.take(0) =~= Seq::<char>::empty());
    assert(views(parts@) =~= Seq::<Seq<char>>::empty());
    while k < p.len()
        invariant
            start <= k <= p.len(),
            rest == p@.skip(start as int),
            split_on(rest.take(k - start), sep).len() >= 1,
            views(parts@) == normalize_pieces(split_on(rest.take(k - start), sep).drop_last()),
            current@ == split_on(rest.take(k - start), sep).last(),
        decreases p.len() - k,
    {
        let c = p[k];
        let ghost pieces = split_on(rest.take(k - start), sep);
        assert(rest.take(k + 1 - start).drop_last() =~= rest.take(k - start));
        assert(rest.take(k + 1 - start).last() == c);
        if c == sep {
            let piece = current;
            current = Vec::new();
            apply_step(&mut parts, piece);
            assert(split_on(rest.take(k + 1 - start), sep) == pieces.push(Seq::empty()));
            assert(pieces.push(Seq::empty()).drop_last() =~= pieces);
            assert(pieces =~= pieces.drop_last().push(pieces.last()));
        } else {
            current.push(c);
            assert(split_on(rest.take(k + 1 - start), sep) == pieces.update(
                pieces.len() - 1,
                pieces.last().push(c),
            ));
            assert(pieces.update(pieces.len() - 1, pieces.last().push(c)).drop_last()
                =~= pieces.drop_last());
        }
        k += 1;
    }
    let ghost pieces = split_on(rest.take(k - start), sep);
    assert(rest.take(k - start) =~= rest);
    apply_step(&mut parts, current);
    assert(pieces =~= pieces.drop_last().push(pieces.last()));
    parts
}

/// Appends the components to `out`, with `sep` between each two
fn push_joined(out: &mut Vec<char>, parts: &Vec<Vec<char>>, sep: char)
    ensures
        final(out)@ == old(out)@ + join_components(views(parts@), sep),
{
    let ghost start = out@;
    let mut i: usize = 0;
    while i < parts.len()
        invariant
            i <= parts.len(),
            out@ == start + join_components(views(parts@).take(i as int), sep),
        decreases parts.len() - i,
    {
        let ghost before = out@;
        if i > 0 {
            out.push(sep);
        }
        let part = &parts[i];
        append_chars(out, part, 0, part.len());
        proof {
            let all = views(parts@);
            assert(part@.subrange(0, part@.len() as int) =~= part@);
            assert(all.take(i + 1).drop_last() =~= all.take(i as int));
            assert(all.take(i + 1).last() == part@);
            if i == 0 {
                assert(out@ =~= start + join_components(all.take(i + 1), sep));
            } else {
                assert(out@ =~= start + join_components(all.take(i + 1), sep));
            }
        }
        i += 1;
    }
    assert(views(parts@).take(parts.len() as int) =~= views(parts@));
}

/// The normalized form of a path written with its style's separator only
fn normalize_chars(p: &Vec<char>, style: PathStyle) -> (normalized: Vec<char>)
    ensures
        normalized@ == normalized_path(p@, style),
{
    let sep = separator_of(style);
    let n = prefix_length(p, style);
    let mut normalized: Vec<char> = Vec::new();
    append_chars(&mut normalized, p, 0, n);
    assert(p@.subrange(0, n as int) =~= p@.take(n as int));
    let root = root_written_chars(p, style);
    if root {
        normalized.push(sep);
    }
    let ghost head = normalized@;
    assert(head =~= p@.take(prefix_len(p@, style) as int) + (if root_written(p@, style) {
        seq![style.separator()]
    } else {
        Seq::empty()
    }));
    let parts = normalize_parts(p, n, sep);
    push_joined(&mut normalized, &parts, sep);
    normalized
}

// ---------------------------------------------------------------------------------------------
// Resolved paths are absolute and normalized
// ---------------------------------------------------------------------------------------------

/// A component that normalization drops or resolves: an empty one, `.` or `..`
pub open spec fn is_special(piece: Seq<char>) -> bool {
    piece.len() == 0 || piece == seq!['.'] || piece == seq!['.', '.']
}

/// No piece contains the character `c`
pub open spec fn pieces_exclude(pieces: Seq<Seq<char>>, c: char) -> bool {
    forall|i: int| 0 <= i < pieces.len() ==> !(#[trigger] pieces[i]).contains(c)
}

/// No piece is special
pub open spec fn pieces_plain(pieces: Seq<Seq<char>>) -> bool {
    forall|i: int| 0 <= i < pieces.len() ==> !is_special(#[trigger] pieces[i])
}

/// A piece of a split contains a character only when the string does and it is not the
/// separator
proof fn lemma_split_on_chars(s: Seq<char>, sep: char, c: char)
    requires
        !s.contains(c) || c == sep,
    ensures
        pieces_exclude(split_on(s, sep), c),
    decreases s.len(),
{
    if s.len() > 0 {
        let t = s.drop_last();
        assert(!t.contains(c) || c == sep) by {
            if t.contains(c) && c != sep {
                let i = choose|i: int| 0 <= i < t.len() && t[i] == c;
                assert(s[i] == c);
            }
        }
        lemma_split_on_chars(t, sep, c);
        lemma_split_on_nonempty(t, sep);
        let pieces = split_on(t, sep);
        if s.last() != sep {
            let last = pieces.last().push(s.last());
            assert(!last.contains(c)) by {
                if last.contains(c) {
                    let i = choose|i: int| 0 <= i < last.len() && last[i] == c;
                    if i < last.len() - 1 {
                        assert(pieces.last()[i] == c);
                        assert(pieces[pieces.len() - 1].contains(c));
                    } else {
                        assert(s[s.len() - 1] == c);
                    }
                }
            }
        }
    }
}

/// Appending a string without separators to a string extends its last piece
proof fn lemma_split_on_append(x: Seq<char>, b: Seq<char>, sep: char)
    requires
        !b.contains(sep),
    ensures
        split_on(x + b, sep) == split_on(x, sep).update(
            split_on(x, sep).len() - 1,
            split_on(x, sep).last() + b,
        ),
    decreases b.len(),
{
    lemma_split_on_nonempty(x, sep);
    if b.len() == 0 {
        assert(x + b =~= x);
        assert(split_on(x, sep).last() + b =~= split_on(x, sep).last());
        assert(split_on(x, sep).update(split_on(x, sep).len() - 1, split_on(x, sep).last())
            =~= split_on(x, sep));
    } else {
        let b0 = b.drop_last();
        let y = b.last();
        assert(!b0.contains(sep)) by {
            if b0.contains(sep) {
                let i = choose|i: int| 0 <= i < b0.len() && b0[i] == sep;
                assert(b[i] == sep);
            }
        }
        assert(y != sep) by {
            assert(b[b.len() - 1] == y);
        }
        lemma_split_on_append(x, b0, sep);
        assert((x + b).drop_last() =~= x + b0);
        assert((x + b).last() == y);
        let pieces = split_on(x, sep);
        assert(pieces.last() + b =~= (pieces.last() + b0).push(y));
        assert(split_on(x + b, sep) =~= pieces.update(pieces.len() - 1, pieces.last() + b));
    }
}

/// Splitting the components joined by the separator gives back the components, when none holds
/// the separator
proof fn lemma_split_on_join(parts: Seq<Seq<char>>, sep: char)
    requires
        parts.len() >= 1,
        pieces_exclude(parts, sep),
    ensures
        split_on(join_components(parts, sep), sep) == parts,
    decreases parts.len(),
{
    if parts.len() == 1 {
        assert(!parts[0].contains(sep));
        lemma_split_on_append(Seq::empty(), parts[0], sep);
        assert(Seq::<char>::empty() + parts[0] =~= parts[0]);
        assert(split_on(Seq::<char>::empty(), sep) == seq![Seq::<char>::empty()]);
        assert(split_on(parts[0], sep) =~= parts);
    } else {
        let init = parts.drop_last();
        assert(pieces_exclude(init, sep)) by {
            assert forall|i: int| 0 <= i < init.len() implies !(#[trigger] init[i]).contains(sep) by {
                assert(init[i] == parts[i]);
            }
        }
        lemma_split_on_join(init, sep);
        let x = join_components(init, sep).push(sep);
        assert(x.drop_last() =~= join_components(init, sep));
        assert(split_on(x, sep) == init.push(Seq::empty()));
        assert(!parts.last().contains(sep)) by {
            assert(parts[parts.len() - 1] == parts.last());
        }
        lemma_split_on_append(x, parts.last(), sep);
        assert(Seq::<char>::empty() + parts.last() =~= parts.last());
        assert(init.push(Seq::empty()).update(init.len() as int, parts.last()) =~= parts);
    }
}

/// Joining the components after an empty first one puts a separator in front
proof fn lemma_join_after_empty(parts: Seq<Seq<char>>, sep: char)
    requires
        parts.len() >= 1,
    ensures
        join_components(seq![Seq::<char>::empty()] + parts, sep) == seq![sep] + join_components(
            parts,
            sep,
        ),
    decreases parts.len(),
{
    let q = seq![Seq::<char>::empty()] + parts;
    if parts.len() == 1 {
        assert(q.drop_last() =~= seq![Seq::<char>::empty()]);
        assert(join_components(q.drop_last(), sep) == Seq::<char>::empty());
        assert(Seq::<char>::empty().push(sep) + parts[0] =~= seq![sep] + parts[0]);
    } else {
        let init = parts.drop_last();
        lemma_join_after_empty(init, sep);
        assert(q.drop_last() =~= seq![Seq::<char>::empty()] + init);
        assert(q.last() == parts.last());
        assert((seq![sep] + join_components(init, sep)).push(sep) + parts.last() =~= seq![sep] + (
        join_components(init, sep).push(sep) + parts.last()));
    }
}

/// Normalizing components none of which is special gives them back; so does normalizing them
/// after an empty one
proof fn lemma_normalize_plain(parts: Seq<Seq<char>>)
    requires
        pieces_plain(parts),
    ensures
        normalize_pieces(parts) == parts,
        normalize_pieces(seq![Seq::<char>::empty()] + parts) == parts,
    decreases parts.len(),
{
    let q = seq![Seq::<char>::empty()] + parts;
    if parts.len() == 0 {
        assert(q =~= seq![Seq::<char>::empty()]);
        assert(q.drop_last() =~= Seq::<Seq<char>>::empty());
        assert(normalize_pieces(parts) =~= parts);
    } else {
        let init = parts.drop_last();
        assert(pieces_plain(init)) by {
            assert forall|i: int| 0 <= i < init.len() implies !is_special(#[trigger] init[i]) by {
                assert(init[i] == parts[i]);
            }
        }
        lemma_normalize_plain(init);
        assert(!is_special(parts[parts.len() - 1]));
        assert(q.drop_last() =~= seq![Seq::<char>::empty()] + init);
        assert(q.last() == parts.last());
        assert(init.push(parts.last()) =~= parts);
    }
}

/// Normalized components are never special, and hold no character that no piece holds
proof fn lemma_normalize_pieces_plain(pieces: Seq<Seq<char>>, c: char, d: char)
    requires
        pieces_exclude(pieces, c),
        pieces_exclude(pieces, d),
    ensures
        pieces_plain(normalize_pieces(pieces)),
        pieces_exclude(normalize_pieces(pieces), c),
        pieces_exclude(normalize_pieces(pieces), d),
    decreases pieces.len(),
{
    if pieces.len() > 0 {
        let init = pieces.drop_last();
        assert(pieces_exclude(init, c) && pieces_exclude(init, d)) by {
            assert forall|i: int| 0 <= i < init.len() implies !(#[trigger] init[i]).contains(c)
                && !init[i].contains(d) by {
                assert(init[i] == pieces[i]);
            }
        }
        lemma_normalize_pieces_plain(init, c, d);
        assert(!pieces[pieces.len() - 1].contains(c) && !pieces[pieces.len() - 1].contains(d));
        let acc = normalize_pieces(init);
        let result = normalize_pieces(pieces);
        assert forall|i: int| 0 <= i < result.len() implies !is_special(#[trigger] result[i])
            && !result[i].contains(c) && !result[i].contains(d) by {
            if i < acc.len() {
                assert(result[i] == acc[i]);
            }
        }
    }
}

/// Every separator of the string is the style's own
pub open spec fn only_style_separators(s: Seq<char>, style: PathStyle) -> bool {
    forall|i: int| 0 <= i < s.len() && is_separator(#[trigger] s[i], PathStyle::Windows) ==> s[i] == style.separator()
}

/// The separator of the other style: the one that never occurs once separators are unified
pub open spec fn other_separator(style: PathStyle) -> char {
    match style {
        PathStyle::Unix => '\\',
        PathStyle::Windows => '/',
    }
}

/// A string with only the style's separators is left as it is by unifying separators; and the
/// other style's separator occurs nowhere in it
proof fn lemma_unified_fixed(s: Seq<char>, style: PathStyle)
    requires
        only_style_separators(s, style),
    ensures
        unify_separators(s, style) == s,
        !s.contains(other_separator(style)),
{
    assert(unify_separators(s, style) =~= s);
    if s.contains(other_separator(style)) {
        let i = choose|i: int| 0 <= i < s.len() && s[i] == other_separator(style);
        assert(is_separator(s[i], PathStyle::Windows));
    }
}

/// A drive letter and a colon make a drive prefix
proof fn lemma_disk_prefix(p: Seq<char>)
    requires
        has_disk_prefix(p),
    ensures
        windows_prefix(p) == Some((WindowsPrefix::Disk, 2int)),
{
}

/// `\\?\`, then a drive and a backslash (or the end), make a verbatim drive prefix
proof fn lemma_verbatim_disk_prefix(p: Seq<char>)
    requires
        starts_verbatim(p),
        verbatim_drive(p),
    ensures
        windows_prefix(p) == Some((WindowsPrefix::VerbatimDisk, 6int)),
{
}

/// A Windows path with a drive, verbatim drive, device or share prefix
pub open spec fn drive_prefixed(p: Seq<char>) -> bool {
    ||| has_disk_prefix(p)
    ||| (starts_verbatim(p) && verbatim_drive(p))
    ||| (windows_prefix(p) matches Some((kind, _)) && (kind == WindowsPrefix::Unc || kind
        == WindowsPrefix::DeviceNs))
}

/// No character before the next separator is a separator
proof fn lemma_next_separator_chars(a: Seq<char>, i: int, verbatim: bool)
    requires
        0 <= i <= a.len(),
    ensures
        forall|j: int|
            i <= j < next_separator(a, i, verbatim) ==> !(#[trigger] a[j] == '\\' || (!verbatim
                && a[j] == '/')),
        next_separator(a, i, verbatim) < a.len() ==> (a[next_separator(a, i, verbatim)] == '\\'
            || (!verbatim && a[next_separator(a, i, verbatim)] == '/')),
    decreases a.len() - i,
{
    if i < a.len() && !(a[i] == '\\' || (!verbatim && a[i] == '/')) {
        lemma_next_separator_chars(a, i + 1, verbatim);
    }
}

/// Another path with the same characters up to where the next separator of a path is found,
/// and a backslash or its end there, has its next separator at the same place
proof fn lemma_next_separator_same(a: Seq<char>, b: Seq<char>, i: int, verbatim: bool)
    requires
        0 <= i <= a.len(),
        next_separator(a, i, verbatim) <= b.len(),
        forall|j: int| i <= j < next_separator(a, i, verbatim) ==> b[j] == a[j],
        next_separator(a, i, verbatim) == b.len() || b[next_separator(a, i, verbatim)] == '\\',
    ensures
        next_separator(b, i, verbatim) == next_separator(a, i, verbatim),
    decreases a.len() - i,
{
    let k = next_separator(a, i, verbatim);
    if i < a.len() && !(a[i] == '\\' || (!verbatim && a[i] == '/')) {
        assert(k == next_separator(a, i + 1, verbatim));
        lemma_next_separator_bounds(a, i + 1, verbatim);
        assert(b[i] == a[i]);
        lemma_next_separator_same(a, b, i + 1, verbatim);
        assert(next_separator(b, i, verbatim) == next_separator(b, i + 1, verbatim));
    } else {
        assert(k == i);
        if i < b.len() {
            assert(b[i] == '\\');
        }
    }
}

/// A path that starts as a device or share prefix does, with the same characters up to the
/// prefix's end and a backslash there, has the same prefix
proof fn lemma_share_prefix_same(a: Seq<char>, b: Seq<char>)
    requires
        windows_prefix(a) matches Some((kind, _)) && (kind == WindowsPrefix::Unc || kind
            == WindowsPrefix::DeviceNs),
        !(a[2] == '?' && is_slash(a[3])),
        prefix_len(a, PathStyle::Windows) <= b.len(),
        forall|j: int|
            0 <= j < prefix_len(a, PathStyle::Windows) ==> #[trigger] b[j] == (if is_slash(a[j]) {
                '\\'
            } else {
                a[j]
            }),
        prefix_len(a, PathStyle::Windows) == b.len() || b[prefix_len(a, PathStyle::Windows) as int]
            == '\\',
    ensures
        windows_prefix(b) == windows_prefix(a),
{
    let n = prefix_len(a, PathStyle::Windows) as int;
    lemma_prefix_bounds(a);
    if a[2] == '.' && is_slash(a[3]) {
        lemma_next_separator_bounds(a, 4, false);
        lemma_next_separator_chars(a, 4, false);
        lemma_next_separator_same(a, b, 4, false);
    } else {
        lemma_next_separator_bounds(a, 2, false);
        lemma_next_separator_chars(a, 2, false);
        let k = next_separator(a, 2, false);
        assert(k < a.len());
        assert(is_slash(a[k]));
        lemma_next_separator_same(a, b, 2, false);
        lemma_next_separator_bounds(a, k + 1, false);
        lemma_next_separator_chars(a, k + 1, false);
        lemma_next_separator_same(a, b, k + 1, false);
    }
}

/// Joined components hold a character only when some component does or it is the separator
proof fn lemma_join_excludes(parts: Seq<Seq<char>>, sep: char, c: char)
    requires
        pieces_exclude(parts, c),
        c != sep,
    ensures
        !join_components(parts, sep).contains(c),
    decreases parts.len(),
{
    if parts.len() == 1 {
        assert(!parts[0].contains(c));
    } else if parts.len() > 1 {
        let init = parts.drop_last();
        assert(pieces_exclude(init, c)) by {
            assert forall|i: int| 0 <= i < init.len() implies !(#[trigger] init[i]).contains(c) by {
                assert(init[i] == parts[i]);
            }
        }
        lemma_join_excludes(init, sep, c);
        assert(!parts[parts.len() - 1].contains(c));
        let a = join_components(init, sep).push(sep);
        let j = a + parts.last();
        if j.contains(c) {
            let i = choose|i: int| 0 <= i < j.len() && j[i] == c;
            if i < a.len() - 1 {
                assert(join_components(init, sep)[i] == c);
            } else if i >= a.len() {
                assert(parts.last()[i - a.len()] == c);
            }
        }
    }
}

/// The first character of joined components that are not special is the first character of
/// the first component
proof fn lemma_join_first(parts: Seq<Seq<char>>, sep: char)
    requires
        parts.len() >= 1,
        pieces_plain(parts),
    ensures
        join_components(parts, sep).len() > 0,
        join_components(parts, sep)[0] == parts[0][0],
    decreases parts.len(),
{
    assert(!is_special(parts[0]));
    if parts.len() > 1 {
        let init = parts.drop_last();
        assert(pieces_plain(init)) by {
            assert forall|i: int| 0 <= i < init.len() implies !is_special(#[trigger] init[i]) by {
                assert(init[i] == parts[i]);
            }
        }
        lemma_join_first(init, sep);
        assert(init[0] == parts[0]);
    }
}

/// The separator written after the prefix of a normalized path, where its root is written
pub open spec fn written_root(u: Seq<char>, style: PathStyle) -> Seq<char> {
    if root_written(u, style) {
        seq![style.separator()]
    } else {
        Seq::empty()
    }
}

/// A normalized path is the prefix, the written root and the components; the components hold
/// neither separator and none is special, and only the style's separators occur in it
proof fn lemma_normalized_shape(u: Seq<char>, style: PathStyle)
    requires
        only_style_separators(u, style),
    ensures
        ({
            let plen = prefix_len(u, style) as int;
            let parts = normalized_components(u, style);
            let joined = join_components(parts, style.separator());
            let r = normalized_path(u, style);
            &&& plen <= u.len()
            &&& only_style_separators(r, style)
            &&& pieces_plain(parts)
            &&& pieces_exclude(parts, style.separator())
            &&& pieces_exclude(parts, other_separator(style))
            &&& r == u.take(plen) + written_root(u, style) + joined
            &&& r.take(plen) == u.take(plen)
            &&& r.skip(plen) == written_root(u, style) + joined
            &&& (parts.len() > 0 ==> joined.len() > 0 && joined[0] != style.separator() && joined[0]
                != other_separator(style))
        }),
{
    let sep = style.separator();
    let other = other_separator(style);
    lemma_prefix_bounds(u);
    let plen = prefix_len(u, style) as int;
    let head = u.take(plen);
    let root_part = written_root(u, style);
    let rest = u.skip(plen);
    let pieces = split_on(rest, sep);
    let parts = normalized_components(u, style);
    let r = normalized_path(u, style);
    assert(r == head + root_part + join_components(parts, sep));
    lemma_unified_fixed(u, style);
    assert(!rest.contains(other)) by {
        if rest.contains(other) {
            let i = choose|i: int| 0 <= i < rest.len() && rest[i] == other;
            assert(u[i + plen] == other);
        }
    }
    lemma_split_on_chars(rest, sep, sep);
    lemma_split_on_chars(rest, sep, other);
    lemma_normalize_pieces_plain(pieces, sep, other);
    lemma_join_excludes(parts, sep, other);
    let joined = join_components(parts, sep);
    assert forall|i: int| 0 <= i < r.len() && is_separator(#[trigger] r[i], PathStyle::Windows) implies r[i] == sep by {
        if i < head.len() {
            assert(r[i] == u[i]);
        } else if i < head.len() + root_part.len() {
        } else {
            let k = i - head.len() - root_part.len();
            assert(r[i] == joined[k]);
            assert(joined[k] != other);
        }
    }
    if parts.len() > 0 {
        lemma_join_first(parts, sep);
        assert(!parts[0].contains(sep) && !parts[0].contains(other));
        assert(parts[0][0] != sep && parts[0][0] != other);
    }
    assert(r.take(plen) =~= head);
    assert(r.skip(plen) =~= root_part + joined);
}

/// Normalizing a normalized path again gives it back, when it reads with the same prefix and
/// root as the path it was made from
proof fn lemma_normalized_tail(u: Seq<char>, style: PathStyle)
    requires
        only_style_separators(u, style),
        prefix_len(normalized_path(u, style), style) == prefix_len(u, style),
        root_written(normalized_path(u, style), style) == root_written(u, style),
    ensures
        normalized_path(normalized_path(u, style), style) == normalized_path(u, style),
{
    lemma_normalized_shape(u, style);
    let sep = style.separator();
    let plen = prefix_len(u, style) as int;
    let root_part = written_root(u, style);
    let parts = normalized_components(u, style);
    let joined = join_components(parts, sep);
    let r = normalized_path(u, style);
    if root_written(u, style) {
        if parts.len() > 0 {
            lemma_join_after_empty(parts, sep);
            assert(root_part + joined =~= join_components(seq![Seq::<char>::empty()] + parts, sep));
            assert(pieces_exclude(seq![Seq::<char>::empty()] + parts, sep)) by {
                let q = seq![Seq::<char>::empty()] + parts;
                assert forall|i: int| 0 <= i < q.len() implies !(#[trigger] q[i]).contains(sep) by {
                    if i > 0 {
                        assert(q[i] == parts[i - 1]);
                    }
                }
            }
            lemma_split_on_join(seq![Seq::<char>::empty()] + parts, sep);
            lemma_normalize_plain(parts);
        } else {
            assert(root_part + joined =~= seq![sep]);
            lemma_split_of_separator(sep);
            assert(normalize_pieces(seq![Seq::<char>::empty(), Seq::<char>::empty()]) =~= parts);
        }
    } else {
        if parts.len() > 0 {
            assert(root_part + joined =~= joined);
            lemma_split_on_join(parts, sep);
            lemma_normalize_plain(parts);
        } else {
            assert(root_part + joined =~= Seq::<char>::empty());
            lemma_split_of_nothing(sep);
            assert(normalize_pieces(seq![Seq::<char>::empty()]) =~= parts);
        }
    }
    assert(normalized_components(r, style) == parts);
    assert(written_root(r, style) == root_part);
}

/// Splitting nothing gives one empty piece, which normalizes to no component
proof fn lemma_split_of_nothing(sep: char)
    ensures
        split_on(Seq::<char>::empty(), sep) == seq![Seq::<char>::empty()],
        normalize_pieces(seq![Seq::<char>::empty()]) == Seq::<Seq<char>>::empty(),
{
    assert(seq![Seq::<char>::empty()].drop_last() =~= Seq::<Seq<char>>::empty());
    assert(normalize_pieces(Seq::<Seq<char>>::empty()) == Seq::<Seq<char>>::empty());
    assert(seq![Seq::<char>::empty()].last() == Seq::<char>::empty());
}

/// Splitting a lone separator gives two empty pieces, which normalize to no component
proof fn lemma_split_of_separator(sep: char)
    ensures
        split_on(seq![sep], sep) == seq![Seq::<char>::empty(), Seq::<char>::empty()],
        normalize_pieces(seq![Seq::<char>::empty(), Seq::<char>::empty()]) == Seq::<Seq<char>>::empty(),
{
    lemma_split_of_nothing(sep);
    assert(seq![sep].drop_last() =~= Seq::<char>::empty());
    assert(seq![sep].last() == sep);
    assert(split_on(seq![sep], sep) == seq![Seq::<char>::empty()].push(Seq::<char>::empty()));
    assert(split_on(seq![sep], sep) =~= seq![Seq::<char>::empty(), Seq::<char>::empty()]);
    let two = seq![Seq::<char>::empty(), Seq::<char>::empty()];
    assert(two.drop_last() =~= seq![Seq::<char>::empty()]);
    assert(two.last() == Seq::<char>::empty());
}

/// A path written with its style's separators only, and with a drive, verbatim drive, device or
/// share prefix in the Windows style, is left as it is by normalizing its normalized form;
/// normalizing keeps its prefix and writes its root, where it has one, as a separator
proof fn lemma_normalized_fixed(u: Seq<char>, style: PathStyle)
    requires
        only_style_separators(u, style),
        style == PathStyle::Unix || drive_prefixed(u),
    ensures
        only_style_separators(normalized_path(u, style), style),
        style == PathStyle::Windows ==> drive_prefixed(normalized_path(u, style)),
        prefix_len(normalized_path(u, style), style) == prefix_len(u, style),
        has_physical_root(normalized_path(u, style), style) == root_written(u, style),
        normalized_path(normalized_path(u, style), style) == normalized_path(u, style),
{
    let sep = style.separator();
    let share = style == PathStyle::Windows && !has_disk_prefix(u) && !(starts_verbatim(u)
        && verbatim_drive(u));
    if style == PathStyle::Windows {
        if has_disk_prefix(u) {
            lemma_disk_prefix(u);
        } else if starts_verbatim(u) && verbatim_drive(u) {
            lemma_verbatim_disk_prefix(u);
        }
    }
    lemma_normalized_shape(u, style);
    let plen = prefix_len(u, style) as int;
    assert(!share ==> (root_written(u, style) == has_physical_root(u, style)));
    assert(share ==> root_written(u, style));
    let rest = u.skip(plen);
    let parts = normalized_components(u, style);
    let r = normalized_path(u, style);

    // With no root written, a verbatim drive prefix is the whole path, and nothing follows it
    if style == PathStyle::Windows && starts_verbatim(u) && verbatim_drive(u) && !has_physical_root(
        u,
        style,
    ) {
        assert(u.len() == 6);
        assert(rest =~= Seq::<char>::empty());
        lemma_split_of_nothing(sep);
        assert(parts =~= Seq::<Seq<char>>::empty());
    }

    // The same prefix and the same root
    if style == PathStyle::Windows {
        if has_disk_prefix(u) {
            assert(has_disk_prefix(r));
            lemma_disk_prefix(r);
        } else if starts_verbatim(u) && verbatim_drive(u) {
            assert(r[0] == u[0] && r[1] == u[1] && r[2] == u[2] && r[3] == u[3] && r[4] == u[4]
                && r[5] == u[5]);
            assert(starts_verbatim(r) && verbatim_drive(r));
            lemma_verbatim_disk_prefix(r);
        } else {
            assert(!(u[2] == '?' && is_slash(u[3])));
            assert(r[plen] == sep);
            assert forall|j: int| 0 <= j < plen implies #[trigger] r[j] == (if is_slash(u[j]) {
                '\\'
            } else {
                u[j]
            }) by {
                assert(r[j] == u[j]);
            }
            lemma_share_prefix_same(u, r);
        }
    }
    assert(prefix_len(r, style) == plen);
    assert(has_physical_root(r, style) == root_written(u, style));
    assert(root_written(r, style) == root_written(u, style));
    lemma_normalized_tail(u, style);
}

/// The next separator is where a run of characters that are not separators ends
proof fn lemma_next_separator_run(p: Seq<char>, i: int, e: int, verbatim: bool)
    requires
        0 <= i <= e <= p.len(),
        forall|j: int| i <= j < e ==> !(#[trigger] p[j] == '\\' || (!verbatim && p[j] == '/')),
        e == p.len() || p[e] == '\\',
    ensures
        next_separator(p, i, verbatim) == e,
    decreases e - i,
{
    if i < e {
        lemma_next_separator_run(p, i + 1, e, verbatim);
    }
}

/// Components joined by a separator are the first component, then the separator and the
/// others joined, when there are others
proof fn lemma_join_front(parts: Seq<Seq<char>>, sep: char)
    requires
        parts.len() >= 1,
    ensures
        parts.len() == 1 ==> join_components(parts, sep) == parts[0],
        parts.len() > 1 ==> join_components(parts, sep) == parts[0] + seq![sep] + join_components(
            parts.skip(1),
            sep,
        ),
    decreases parts.len(),
{
    if parts.len() > 1 {
        let init = parts.drop_last();
        lemma_join_front(init, sep);
        let tail = parts.skip(1);
        if parts.len() == 2 {
            assert(tail =~= seq![parts[1]]);
            assert(init =~= seq![parts[0]]);
            assert(parts[0].push(sep) + parts[1] =~= parts[0] + seq![sep] + parts[1]);
        } else {
            assert(tail.drop_last() =~= init.skip(1));
            assert(tail.last() == parts.last());
            assert((parts[0] + seq![sep] + join_components(init.skip(1), sep)).push(sep) + parts.last()
                =~= parts[0] + seq![sep] + (join_components(init.skip(1), sep).push(sep)
                + parts.last()));
        }
    }
}

/// A verbatim name or share prefix ends at a backslash or at the end of the path
proof fn lemma_verbatim_prefix_end(u: Seq<char>)
    requires
        windows_prefix(u) matches Some((kind, _)) && (kind == WindowsPrefix::Verbatim || kind
            == WindowsPrefix::VerbatimUnc),
    ensures
        prefix_len(u, PathStyle::Windows) == u.len() || u[prefix_len(u, PathStyle::Windows) as int]
            == '\\',
{
    lemma_prefix_bounds(u);
    if starts_verbatim_unc(u) {
        lemma_next_separator_bounds(u, 8, true);
        lemma_next_separator_chars(u, 8, true);
        let k = next_separator(u, 8, true);
        if k < u.len() {
            lemma_next_separator_bounds(u, k + 1, true);
            lemma_next_separator_chars(u, k + 1, true);
        }
    } else {
        lemma_next_separator_chars(u, 4, true);
    }
}

/// A Windows path written with backslashes only, with a verbatim name or share prefix, is left
/// as it is by normalizing its normalized form, which keeps a prefix
proof fn lemma_normalized_fixed_verbatim(u: Seq<char>)
    requires
        only_style_separators(u, PathStyle::Windows),
        windows_prefix(u) matches Some((kind, _)) && (kind == WindowsPrefix::Verbatim || kind
            == WindowsPrefix::VerbatimUnc),
    ensures
        prefix_len(normalized_path(u, PathStyle::Windows), PathStyle::Windows) > 0,
        has_root(normalized_path(u, PathStyle::Windows), PathStyle::Windows),
        only_style_separators(normalized_path(u, PathStyle::Windows), PathStyle::Windows),
        normalized_path(normalized_path(u, PathStyle::Windows), PathStyle::Windows) == normalized_path(
            u,
            PathStyle::Windows,
        ),
{
    let w = PathStyle::Windows;
    lemma_normalized_shape(u, w);
    lemma_prefix_bounds(u);
    lemma_verbatim_prefix_end(u);
    let n = prefix_len(u, w) as int;
    let parts = normalized_components(u, w);
    let joined = join_components(parts, '\\');
    let r = normalized_path(u, w);
    assert(starts_verbatim(u));
    if n == u.len() {
        // Nothing follows the prefix: the path is its own normalized form
        assert(u.skip(n) =~= Seq::<char>::empty());
        lemma_split_of_nothing('\\');
        assert(parts =~= Seq::<Seq<char>>::empty());
        assert(!root_written(u, w));
        assert(r =~= u);
    } else {
        assert(u[n] == '\\');
        assert(root_written(u, w));
        assert(r[n] == '\\');
        assert(forall|j: int| 0 <= j < n ==> #[trigger] r[j] == u[j]);
        let special = starts_verbatim_unc(u) && n == next_separator(u, 8, true) && parts.len() > 0;
        if !special {
            // The prefix reads the same
            if starts_verbatim_unc(u) {
                lemma_next_separator_bounds(u, 8, true);
                lemma_next_separator_chars(u, 8, true);
                let k = next_separator(u, 8, true);
                if k < u.len() {
                    lemma_next_separator_bounds(u, k + 1, true);
                }
                assert(k <= n);
                assert(r[k] == '\\');
                lemma_next_separator_same(u, r, 8, true);
                assert(k < r.len() && r[k] == '\\');
                if k < n {
                    lemma_next_separator_bounds(u, k + 1, true);
                    lemma_next_separator_same(u, r, k + 1, true);
                } else {
                    if parts.len() == 0 {
                        assert(joined == Seq::<char>::empty());
                        assert(r.len() == k + 1);
                    }
                }
            } else {
                lemma_next_separator_bounds(u, 4, true);
                lemma_next_separator_same(u, r, 4, true);
            }
            assert(windows_prefix(r) == windows_prefix(u));
            assert(root_written(r, w));
            lemma_normalized_tail(u, w);
        } else {
            // The first component completes a share that the prefix left empty
            let k = n;
            let p0 = parts[0];
            lemma_join_front(parts, '\\');
            assert(!p0.contains('\\'));
            let e = k + 1 + p0.len();
            assert forall|j: int| k + 1 <= j < e implies !(#[trigger] r[j] == '\\' || r[j] == '/') by {
                assert(r[j] == p0[j - k - 1]);
                assert(p0.contains(r[j]));
            }
            if parts.len() > 1 {
                assert(r[e] == '\\');
            } else {
                assert(r.len() == e);
            }
            lemma_next_separator_run(r, k + 1, e, true);
            lemma_next_separator_bounds(u, 8, true);
            lemma_next_separator_same(u, r, 8, true);
            assert(p0.len() > 0);
            assert(windows_prefix(r) == Some((WindowsPrefix::VerbatimUnc, e)));
            let rest = parts.skip(1);
            assert(pieces_plain(rest) && pieces_exclude(rest, '\\')) by {
                assert forall|i: int| 0 <= i < rest.len() implies !is_special(#[trigger] rest[i])
                    && !rest[i].contains('\\') by {
                    assert(rest[i] == parts[i + 1]);
                }
            }
            if parts.len() > 1 {
                assert(r.skip(e) =~= seq!['\\'] + join_components(rest, '\\'));
                lemma_join_after_empty(rest, '\\');
                assert(pieces_exclude(seq![Seq::<char>::empty()] + rest, '\\')) by {
                    let q = seq![Seq::<char>::empty()] + rest;
                    assert forall|i: int| 0 <= i < q.len() implies !(#[trigger] q[i]).contains('\\') by {
                        if i > 0 {
                            assert(q[i] == rest[i - 1]);
                        }
                    }
                }
                lemma_split_on_join(seq![Seq::<char>::empty()] + rest, '\\');
                lemma_normalize_plain(rest);
                assert(normalized_components(r, w) == rest);
                assert(root_written(r, w));
                assert(normalized_path(r, w) =~= r);
            } else {
                assert(r.skip(e) =~= Seq::<char>::empty());
                lemma_split_of_nothing('\\');
                assert(normalized_components(r, w) =~= Seq::<Seq<char>>::empty());
                assert(!root_written(r, w));
                assert(rest =~= Seq::<Seq<char>>::empty());
                assert(normalized_path(r, w) =~= r);
            }
        }
    }
}

/// Once its separators are unified, a path with a prefix still has one, a drive prefix staying
/// a drive prefix, when a backslash or the end follows where a share prefix ends
proof fn lemma_unified_has_prefix(a: Seq<char>, u: Seq<char>)
    requires
        windows_prefix(a) is Some,
        prefix_len(a, PathStyle::Windows) <= u.len(),
        forall|j: int|
            0 <= j < prefix_len(a, PathStyle::Windows) ==> #[trigger] u[j] == (if is_slash(a[j]) {
                '\\'
            } else {
                a[j]
            }),
        windows_prefix(a) matches Some((WindowsPrefix::Unc, _)) ==> (prefix_len(a, PathStyle::Windows)
            == u.len() || u[prefix_len(a, PathStyle::Windows) as int] == '\\'),
    ensures
        prefix_len(u, PathStyle::Windows) > 0,
        has_disk_prefix(u) == has_disk_prefix(a),
{
    lemma_prefix_bounds(a);
    lemma_prefix_bounds(u);
    if has_disk_prefix(a) {
        assert(u[0] == a[0] && u[1] == a[1]);
        lemma_disk_prefix(u);
    } else {
        assert(is_slash(a[0]) && is_slash(a[1]));
        assert(u[0] == (if is_slash(a[0]) { '\\' } else { a[0] }));
        assert(u[1] == (if is_slash(a[1]) { '\\' } else { a[1] }));
        assert(u[2] == (if is_slash(a[2]) { '\\' } else { a[2] }));
        assert(u[3] == (if is_slash(a[3]) { '\\' } else { a[3] }));
        assert(u[0] == '\\' && u[1] == '\\');
        if u[2] == '?' && u[3] == '\\' {
            assert(starts_verbatim(u));
        } else if u[2] == '.' && u[3] == '\\' {
        } else {
            assert(!starts_verbatim(a));
            assert(!(a[2] == '.' && is_slash(a[3])));
            assert(!(a[2] == '?' && is_slash(a[3])));
            lemma_share_prefix_same(a, u);
        }
    }
}

/// A share or device prefix ends at a separator or at the end of the path
proof fn lemma_share_prefix_end(a: Seq<char>)
    requires
        windows_prefix(a) matches Some((kind, _)) && (kind == WindowsPrefix::Unc || kind
            == WindowsPrefix::DeviceNs),
    ensures
        prefix_len(a, PathStyle::Windows) == a.len() || is_slash(a[prefix_len(a, PathStyle::Windows) as int]),
{
    lemma_prefix_bounds(a);
    if a[2] == '.' && is_slash(a[3]) && !starts_verbatim(a) {
        lemma_next_separator_chars(a, 4, false);
    } else {
        lemma_next_separator_bounds(a, 2, false);
        let k = next_separator(a, 2, false);
        lemma_next_separator_chars(a, k + 1, false);
    }
}

/// The joined path, once its separators are unified, has a prefix, and a drive prefix is
/// followed by a root where the path has a root or no prefix
pub open spec fn joined_prefixed(path: Seq<char>, u: Seq<char>) -> bool {
    &&& prefix_len(u, PathStyle::Windows) > 0
    &&& (has_disk_prefix(u) && (prefix_len(path, PathStyle::Windows) == 0 || has_root(
        path,
        PathStyle::Windows,
    )) ==> u.len() > 2 && u[2] == '\\')
}

/// An absolute path, or one with a prefix, stands alone once joined
proof fn lemma_joined_alone(path: Seq<char>)
    requires
        path_is_absolute(path, PathStyle::Windows) || prefix_len(path, PathStyle::Windows) > 0,
    ensures
        joined_prefixed(path, unify_separators(path, PathStyle::Windows)),
{
    let u = unify_separators(path, PathStyle::Windows);
    assert(forall|i: int| 0 <= i < path.len() ==> #[trigger] u[i] == (if is_slash(path[i]) { '\\' } else { path[i] }));
    lemma_prefix_bounds(path);
    if windows_prefix(path) matches Some((WindowsPrefix::Unc, _)) {
        lemma_share_prefix_end(path);
    }
    lemma_unified_has_prefix(path, u);
    if has_disk_prefix(path) && has_root(path, PathStyle::Windows) {
        lemma_disk_prefix(path);
        assert(u[2] == '\\');
    }
}

/// A relative path joined onto a verbatim base starts with `\\?\`, so it has a prefix
proof fn lemma_joined_verbatim(path: Seq<char>, base: Seq<char>)
    requires
        has_verbatim_prefix(base),
        path.len() > 0,
    ensures
        joined_prefixed(path, unify_separators(verbatim_joined(path, base), PathStyle::Windows)),
{
    let j = verbatim_joined(path, base);
    let u = unify_separators(j, PathStyle::Windows);
    assert(forall|i: int| 0 <= i < j.len() ==> #[trigger] u[i] == (if is_slash(j[i]) { '\\' } else { j[i] }));
    lemma_prefix_bounds(base);
    let pb = prefix_len(base, PathStyle::Windows) as int;
    assert(starts_verbatim(base));
    assert(pb >= 4);
    assert(j.take(pb) =~= base.take(pb));
    assert(j[0] == base[0] && j[1] == base[1] && j[2] == base[2] && j[3] == base[3]);
    assert(starts_verbatim(u));
    lemma_prefix_bounds(u);
}

/// A rooted path without prefix, joined onto a base without a verbatim prefix, keeps the base's
/// prefix
proof fn lemma_joined_rooted(path: Seq<char>, base: Seq<char>)
    requires
        path_is_absolute(base, PathStyle::Windows),
        path.len() > 0,
        is_slash(path[0]),
    ensures
        joined_prefixed(
            path,
            unify_separators(
                base.take(prefix_len(base, PathStyle::Windows) as int) + path,
                PathStyle::Windows,
            ),
        ),
{
    let pb = prefix_len(base, PathStyle::Windows) as int;
    let j = base.take(pb) + path;
    let u = unify_separators(j, PathStyle::Windows);
    assert(forall|i: int| 0 <= i < j.len() ==> #[trigger] u[i] == (if is_slash(j[i]) { '\\' } else { j[i] }));
    lemma_prefix_bounds(base);
    assert(u[pb] == '\\');
    assert forall|i: int| 0 <= i < pb implies #[trigger] u[i] == (if is_slash(base[i]) {
        '\\'
    } else {
        base[i]
    }) by {
        assert(j[i] == base[i]);
    }
    lemma_unified_has_prefix(base, u);
    if has_disk_prefix(base) {
        lemma_disk_prefix(base);
    }
}

/// A relative path joined onto a base as the base, a separator and the path keeps the base's
/// prefix and root
proof fn lemma_joined_relative(path: Seq<char>, base: Seq<char>)
    requires
        path_is_absolute(base, PathStyle::Windows),
    ensures
        joined_prefixed(path, unify_separators(base.push('\\') + path, PathStyle::Windows)),
{
    let pb = prefix_len(base, PathStyle::Windows) as int;
    let j = base.push('\\') + path;
    let u = unify_separators(j, PathStyle::Windows);
    assert(forall|i: int| 0 <= i < j.len() ==> #[trigger] u[i] == (if is_slash(j[i]) { '\\' } else { j[i] }));
    lemma_prefix_bounds(base);
    assert(j[base.len() as int] == '\\');
    assert forall|i: int| 0 <= i < pb implies #[trigger] u[i] == (if is_slash(base[i]) {
        '\\'
    } else {
        base[i]
    }) by {
        assert(j[i] == base[i]);
    }
    if windows_prefix(base) matches Some((WindowsPrefix::Unc, _)) {
        lemma_share_prefix_end(base);
        assert(u[pb] == '\\');
    }
    lemma_unified_has_prefix(base, u);
    if has_disk_prefix(base) {
        lemma_disk_prefix(base);
        assert(has_physical_root(base, PathStyle::Windows));
        assert(u[2] == '\\');
    }
}

/// A Windows path written with backslashes only and with a prefix is left as it is by
/// normalizing its normalized form, which keeps a prefix, and a root where the path has one
proof fn lemma_normalized_fixed_windows(u: Seq<char>)
    requires
        only_style_separators(u, PathStyle::Windows),
        prefix_len(u, PathStyle::Windows) > 0,
    ensures
        prefix_len(normalized_path(u, PathStyle::Windows), PathStyle::Windows) > 0,
        has_root(u, PathStyle::Windows) ==> has_root(
            normalized_path(u, PathStyle::Windows),
            PathStyle::Windows,
        ),
        only_style_separators(normalized_path(u, PathStyle::Windows), PathStyle::Windows),
        normalized_path(normalized_path(u, PathStyle::Windows), PathStyle::Windows) == normalized_path(
            u,
            PathStyle::Windows,
        ),
{
    let w = PathStyle::Windows;
    let r = normalized_path(u, w);
    if drive_prefixed(u) {
        if has_disk_prefix(u) {
            lemma_disk_prefix(u);
        } else if starts_verbatim(u) && verbatim_drive(u) {
            lemma_verbatim_disk_prefix(u);
        }
        lemma_normalized_fixed(u, w);
        lemma_normalized_shape(u, w);
        if has_disk_prefix(r) {
            lemma_disk_prefix(r);
        } else if starts_verbatim(r) && verbatim_drive(r) {
            lemma_verbatim_disk_prefix(r);
        }
    } else {
        lemma_normalized_fixed_verbatim(u);
    }
}

/// A path resolved against an absolute base directory is normalized: resolving it again,
/// against any absolute base directory, gives it back unchanged. It is absolute, unless it is a
/// Windows path relative to the current directory of a drive (such as `D:x`), which stays so.
pub proof fn lemma_resolved_path_normalized(
    path: Seq<char>,
    base: Seq<char>,
    base2: Seq<char>,
    style: PathStyle,
)
    requires
        path_is_absolute(base, style),
        path_is_absolute(base2, style),
    ensures
        style == PathStyle::Unix || prefix_len(path, style) == 0 || has_root(path, style)
            ==> path_is_absolute(resolved_path(path, base, style), style),
        resolved_path(resolved_path(path, base, style), base2, style) == resolved_path(
            path,
            base,
            style,
        ),
{
    let sep = style.separator();
    let j = joined_path(path, base, style);
    let u = unify_separators(j, style);
    assert(forall|i: int| 0 <= i < j.len() ==> #[trigger] u[i] == (if is_slash(j[i]) { sep } else { j[i] }));
    assert(only_style_separators(u, style));
    let r = normalized_path(u, style);
    assert(r == resolved_path(path, base, style));
    if style == PathStyle::Windows {
        if path_is_absolute(path, style) || prefix_len(path, style) > 0 {
            lemma_joined_alone(path);
        } else if has_verbatim_prefix(base) && path.len() > 0 {
            lemma_joined_verbatim(path, base);
        } else if path.len() > 0 && is_separator(path[0], style) {
            lemma_joined_rooted(path, base);
        } else {
            lemma_joined_relative(path, base);
        }
        assert(joined_prefixed(path, u));
        if prefix_len(path, style) == 0 || has_root(path, style) {
            if has_disk_prefix(u) {
                lemma_disk_prefix(u);
                assert(has_physical_root(u, style));
            } else {
                lemma_prefix_bounds(u);
                assert(is_slash(u[0]));
            }
            assert(has_root(u, style));
        }
        lemma_normalized_fixed_windows(u);
    } else {
        if !path_is_absolute(path, style) {
            assert(j == base.push(sep) + path);
            assert(j[0] == base[0]);
        }
        assert(j.len() > 0 && j[0] == '/');
        lemma_normalized_fixed(u, style);
    }
    lemma_unified_fixed(r, style);
    assert(joined_path(r, base2, style) == r);
}

} // verus!
