//! One line of the listing: permissions, indentation, branch, icon, name,
//! size and date of an entry.

use crate::entry::Entry;
use crate::root::Opts;
use crate::text::{push_all, push_char};
use crate::utils::{
    permissions_text, push_unknown_date, size_text, timestamp_text, unknown_date_text,
};
use ansi_term::Colour::Red;
use vstd::prelude::*;
use vstd::string::StrSliceExecFns;

pub use crate::utils::{format_date, format_file_size, format_permissions};

verus! {

/// The escape sequence that ends a styled piece of text.
pub open spec fn reset_code() -> Seq<char> {
    seq!['\x1b', '[', '0', 'm']
}

/// `s` in red.
pub open spec fn red_text(s: Seq<char>) -> Seq<char> {
    seq!['\x1b', '[', '3', '1', 'm'] + s + reset_code()
}

/// `s` in bold red.
pub open spec fn bold_red_text(s: Seq<char>) -> Seq<char> {
    seq!['\x1b', '[', '1', ';', '3', '1', 'm'] + s + reset_code()
}

/// Relies on `ansi_term::Colour::paint`, shown through `Display`: the code
/// for red, the text, and the reset code.
#[verifier::external_body]
fn paint_red(s: &str) -> (r: String)
    ensures
        r@ == red_text(s@),
{
    Red.paint(s).to_string()
}

/// Relies on `ansi_term::Style::paint` for `Colour::Red.bold()`, shown
/// through `Display`: the code for bold and red, the text, and the reset
/// code.
#[verifier::external_body]
fn paint_bold_red(s: &str) -> (r: String)
    ensures
        r@ == bold_red_text(s@),
{
    Red.bold().paint(s).to_string()
}

/// The icon of a directory.
pub open spec fn dir_icon() -> char {
    '\u{e5fe}'
}

/// The icon of a file with no extension, or with one not in the table.
pub const DEFAULT_ICON: char = '\u{f0214}';

/// Extensions shown with the image icon.
pub open spec fn is_image_ext(ext: Seq<char>) -> bool {
    ext == seq!['p', 'n', 'g']
        || ext == seq!['j', 'p', 'g']
        || ext == seq!['j', 'p', 'e', 'g']
        || ext == seq!['g', 'i', 'f']
        || ext == seq!['s', 'v', 'g']
        || ext == seq!['i', 'c', 'o']
        || ext == seq!['t', 'i', 'f', 'f']
        || ext == seq!['w', 'e', 'b', 'p']
        || ext == seq!['b', 'm', 'p']
}

/// Extensions shown with the audio icon.
pub open spec fn is_audio_ext(ext: Seq<char>) -> bool {
    ext == seq!['m', 'p', '3']
        || ext == seq!['w', 'a', 'v']
        || ext == seq!['f', 'l', 'a', 'c']
        || ext == seq!['a', 'a', 'c']
        || ext == seq!['o', 'g', 'g']
}

/// Extensions shown with the video icon.
pub open spec fn is_video_ext(ext: Seq<char>) -> bool {
    ext == seq!['m', 'p', '4']
        || ext == seq!['a', 'v', 'i']
        || ext == seq!['m', 'o', 'v']
        || ext == seq!['w', 'm', 'v']
        || ext == seq!['f', 'l', 'v']
        || ext == seq!['w', 'e', 'b', 'm']
        || ext == seq!['m', 'k', 'v']
}

/// Extensions shown with the archive icon.
pub open spec fn is_archive_ext(ext: Seq<char>) -> bool {
    ext == seq!['z', 'i', 'p']
        || ext == seq!['r', 'a', 'r']
        || ext == seq!['t', 'a', 'r']
        || ext == seq!['7', 'z']
        || ext == seq!['g', 'z']
        || ext == seq!['x', 'z']
}

/// Extensions shown with the document icon.
pub open spec fn is_document_ext(ext: Seq<char>) -> bool {
    ext == seq!['m', 'd']
        || ext == seq!['t', 'x', 't']
        || ext == seq!['x', 'm', 'l']
        || ext == seq!['y', 'm', 'l']
        || ext == seq!['y', 'a', 'm', 'l']
}

/// Extensions shown with the key icon.
pub open spec fn is_key_ext(ext: Seq<char>) -> bool {
    ext == seq!['l', 'o', 'c', 'k']
        || ext == seq!['k', 'e', 'y']
        || ext == seq!['p', 'e', 'm']
        || ext == seq!['c', 'r', 't']
        || ext == seq!['p', '1', '2']
        || ext == seq!['p', 'f', 'x']
}

/// Extensions shown with the config icon.
pub open spec fn is_config_ext(ext: Seq<char>) -> bool {
    ext == seq!['t', 'o', 'm', 'l']
        || ext == seq!['i', 'n', 'i']
        || ext == seq!['c', 'f', 'g']
        || ext == seq!['c', 'o', 'n', 'f']
}

/// Extensions shown with the data icon.
pub open spec fn is_data_ext(ext: Seq<char>) -> bool {
    ext == seq!['j', 's', 'o', 'n']
        || ext == seq!['c', 's', 'v']
        || ext == seq!['l', 'o', 'g']
        || ext == seq!['s', 'q', 'l']
}

/// The icon of a file with extension `ext`.
pub open spec fn ext_icon(ext: Seq<char>) -> char {
    if is_image_ext(ext) {
        '\u{f021f}'
    } else if is_audio_ext(ext) {
        '\u{f0223}'
    } else if is_video_ext(ext) {
        '\u{f022b}'
    } else if is_archive_ext(ext) {
        '\u{f1c6}'
    } else if is_document_ext(ext) {
        '\u{f0219}'
    } else if is_key_ext(ext) {
        '\u{f1184}'
    } else if is_config_ext(ext) {
        '\u{f107b}'
    } else if is_data_ext(ext) {
        '\u{f0c7e}'
    } else {
        DEFAULT_ICON
    }
}

/// The position of the last `.` among the first `n` characters of `name`,
/// or -1.
pub open spec fn last_dot(name: Seq<char>, n: int) -> int
    decreases n,
{
    if n <= 0 {
        -1
    } else if name[n - 1] == '.' {
        n - 1
    } else {
        last_dot(name, n - 1)
    }
}

/// What follows the last `.` of a name; none if there is no `.`, or if the
/// only one begins the name.
pub open spec fn extension(name: Seq<char>) -> Option<Seq<char>> {
    let k = last_dot(name, name.len() as int);
    if k <= 0 {
        None
    } else {
        Some(name.subrange(k + 1, name.len() as int))
    }
}

/// The icon shown before an entry's name.
pub open spec fn icon(is_dir: bool, name: Seq<char>) -> char {
    if is_dir {
        dir_icon()
    } else {
        match extension(name) {
            Some(ext) => ext_icon(ext),
            None => DEFAULT_ICON,
        }
    }
}

/// The path of entry `name` within the directory at path `parent`.
pub open spec fn join_path(parent: Seq<char>, name: Seq<char>) -> Seq<char> {
    if parent.len() == 0 {
        name
    } else if parent.last() == '/' {
        parent + name
    } else {
        parent + seq!['/'] + name
    }
}

/// The indentation unit under an ancestor that was not its parent's last
/// listed entry.
pub open spec fn bar_glyph(ascii: bool) -> Seq<char> {
    if ascii {
        seq!['|', ' ', ' ', ' ']
    } else {
        seq!['\u{2502}', ' ', ' ', ' ']
    }
}

/// The indentation unit under an ancestor that was its parent's last listed
/// entry.
pub open spec fn blank_glyph() -> Seq<char> {
    seq![' ', ' ', ' ', ' ']
}

/// The branch drawn before an entry.
pub open spec fn branch_glyph(ascii: bool, is_last: bool) -> Seq<char> {
    if is_last {
        if ascii {
            seq!['+', '-', '-', '-']
        } else {
            seq!['\u{2514}', '\u{2500}', '\u{2500}', ' ']
        }
    } else {
        if ascii {
            seq!['|', '-', '-', '-']
        } else {
            seq!['\u{251c}', '\u{2500}', '\u{2500}', ' ']
        }
    }
}

/// Glyphs at `level` are red when a highlighted ancestor stands at a
/// smaller depth (`furthest` is the smallest depth of a highlighted
/// ancestor, if any).
pub open spec fn red_at(furthest: Option<nat>, level: nat) -> bool {
    match furthest {
        Some(f) => f < level,
        None => false,
    }
}

/// The indentation for the ancestors recorded in `indent` (true where the
/// ancestor was its parent's last listed entry).
pub open spec fn indent_text(indent: Seq<bool>, ascii: bool, furthest: Option<nat>) -> Seq<char>
    decreases indent.len(),
{
    if indent.len() == 0 {
        Seq::empty()
    } else {
        let level = (indent.len() - 1) as nat;
        let unit = if indent.last() {
            blank_glyph()
        } else if red_at(furthest, level) {
            red_text(bar_glyph(ascii))
        } else {
            bar_glyph(ascii)
        };
        indent_text(indent.drop_last(), ascii, furthest) + unit
    }
}

/// The branch before an entry at depth `level`.
pub open spec fn branch_text(opts: Opts, is_last: bool, level: nat, furthest: Option<nat>) -> Seq<
    char,
> {
    let glyph = if opts.no_indent {
        Seq::empty()
    } else {
        branch_glyph(opts.ascii, is_last)
    };
    if red_at(furthest, level) {
        red_text(glyph)
    } else {
        glyph
    }
}

/// The icon and the name (or path) of an entry, bold red if highlighted.
pub open spec fn name_text(e: Entry, opts: Opts, parent_path: Seq<char>, highlight: bool) -> Seq<
    char,
> {
    let shown = seq![icon(e.is_dir, e.name@), ' '] + if opts.full_path {
        join_path(parent_path, e.name@)
    } else {
        e.name@
    };
    if highlight {
        bold_red_text(shown)
    } else {
        shown
    }
}

/// The line of entry `e` inside the directory at `parent_path`.
pub open spec fn entry_line(
    e: Entry,
    opts: Opts,
    parent_path: Seq<char>,
    indent: Seq<bool>,
    is_last: bool,
    highlight: bool,
    furthest: Option<nat>,
) -> Seq<char> {
    let perms = if opts.print_permissions {
        permissions_text(e.mode, e.is_dir) + seq![' ']
    } else {
        Seq::empty()
    };
    let indentation = if opts.no_indent {
        Seq::empty()
    } else {
        indent_text(indent, opts.ascii, furthest)
    };
    let size = if !e.is_dir && opts.print_size {
        seq![' ', '('] + size_text(e.size as nat) + seq![')']
    } else {
        Seq::empty()
    };
    let date = if opts.last_modify {
        seq![' ', '['] + match e.modified {
            Some(t) => timestamp_text(t),
            None => unknown_date_text(),
        } + seq![']']
    } else {
        Seq::empty()
    };
    perms + indentation + branch_text(opts, is_last, indent.len(), furthest) + name_text(
        e,
        opts,
        parent_path,
        highlight,
    ) + size + date
}

fn same_chars(a: &Vec<char>, b: &Vec<char>) -> (r: bool)
    ensures
        r == (a@ == b@),
{
    if a.len() != b.len() {
        return false;
    }
    let mut k: usize = 0;
    while k < a.len()
        invariant
            a@.len() == b@.len(),
            k <= a@.len(),
            forall|j: int| 0 <= j < k ==> a@[j] == b@[j],
        decreases a@.len() - k,
    {
        if a[k] != b[k] {
            return false;
        }
        k = k + 1;
    }
    assert(a@ =~= b@);
    true
}

fn image_ext(ext: &Vec<char>) -> (r: bool)
    ensures
        r == is_image_ext(ext@),
{
    same_chars(ext, &vec!['p', 'n', 'g'])
        || same_chars(ext, &vec!['j', 'p', 'g'])
        || same_chars(ext, &vec!['j', 'p', 'e', 'g'])
        || same_chars(ext, &vec!['g', 'i', 'f'])
        || same_chars(ext, &vec!['s', 'v', 'g'])
        || same_chars(ext, &vec!['i', 'c', 'o'])
        || same_chars(ext, &vec!['t', 'i', 'f', 'f'])
        || same_chars(ext, &vec!['w', 'e', 'b', 'p'])
        || same_chars(ext, &vec!['b', 'm', 'p'])
}

fn audio_ext(ext: &Vec<char>) -> (r: bool)
    ensures
        r == is_audio_ext(ext@),
{
    same_chars(ext, &vec!['m', 'p', '3'])
        || same_chars(ext, &vec!['w', 'a', 'v'])
        || same_chars(ext, &vec!['f', 'l', 'a', 'c'])
        || same_chars(ext, &vec!['a', 'a', 'c'])
        || same_chars(ext, &vec!['o', 'g', 'g'])
}

fn video_ext(ext: &Vec<char>) -> (r: bool)
    ensures
        r == is_video_ext(ext@),
{
    same_chars(ext, &vec!['m', 'p', '4'])
        || same_chars(ext, &vec!['a', 'v', 'i'])
        || same_chars(ext, &vec!['m', 'o', 'v'])
        || same_chars(ext, &vec!['w', 'm', 'v'])
        || same_chars(ext, &vec!['f', 'l', 'v'])
        || same_chars(ext, &vec!['w', 'e', 'b', 'm'])
        || same_chars(ext, &vec!['m', 'k', 'v'])
}

fn archive_ext(ext: &Vec<char>) -> (r: bool)
    ensures
        r == is_archive_ext(ext@),
{
    same_chars(ext, &vec!['z', 'i', 'p'])
        || same_chars(ext, &vec!['r', 'a', 'r'])
        || same_chars(ext, &vec!['t', 'a', 'r'])
        || same_chars(ext, &vec!['7', 'z'])
        || same_chars(ext, &vec!['g', 'z'])
        || same_chars(ext, &vec!['x', 'z'])
}

fn document_ext(ext: &Vec<char>) -> (r: bool)
    ensures
        r == is_document_ext(ext@),
{
    same_chars(ext, &vec!['m', 'd'])
        || same_chars(ext, &vec!['t', 'x', 't'])
        || same_chars(ext, &vec!['x', 'm', 'l'])
        || same_chars(ext, &vec!['y', 'm', 'l'])
        || same_chars(ext, &vec!['y', 'a', 'm', 'l'])
}

fn key_ext(ext: &Vec<char>) -> (r: bool)
    ensures
        r == is_key_ext(ext@),
{
    same_chars(ext, &vec!['l', 'o', 'c', 'k'])
        || same_chars(ext, &vec!['k', 'e', 'y'])
        || same_chars(ext, &vec!['p', 'e', 'm'])
        || same_chars(ext, &vec!['c', 'r', 't'])
        || same_chars(ext, &vec!['p', '1', '2'])
        || same_chars(ext, &vec!['p', 'f', 'x'])
}

fn config_ext(ext: &Vec<char>) -> (r: bool)
    ensures
        r == is_config_ext(ext@),
{
    same_chars(ext, &vec!['t', 'o', 'm', 'l'])
        || same_chars(ext, &vec!['i', 'n', 'i'])
        || same_chars(ext, &vec!['c', 'f', 'g'])
        || same_chars(ext, &vec!['c', 'o', 'n', 'f'])
}

fn data_ext(ext: &Vec<char>) -> (r: bool)
    ensures
        r == is_data_ext(ext@),
{
    same_chars(ext, &vec!['j', 's', 'o', 'n'])
        || same_chars(ext, &vec!['c', 's', 'v'])
        || same_chars(ext, &vec!['l', 'o', 'g'])
        || same_chars(ext, &vec!['s', 'q', 'l'])
}

fn ext_icon_of(ext: &Vec<char>) -> (c: char)
    ensures
        c == ext_icon(ext@),
{
    if image_ext(ext) {
        '\u{f021f}'
    } else if audio_ext(ext) {
        '\u{f0223}'
    } else if video_ext(ext) {
        '\u{f022b}'
    } else if archive_ext(ext) {
        '\u{f1c6}'
    } else if document_ext(ext) {
        '\u{f0219}'
    } else if key_ext(ext) {
        '\u{f1184}'
    } else if config_ext(ext) {
        '\u{f107b}'
    } else if data_ext(ext) {
        '\u{f0c7e}'
    } else {
        '\u{f0214}'
    }
}

/// The characters of `s`.
fn chars_of(s: &str) -> (r: Vec<char>)
    ensures
        r@ == s@,
{
    let n = s.unicode_len();
    let mut r: Vec<char> = Vec::new();
    let mut k: usize = 0;
    while k < n
        invariant
            n == s@.len(),
            k <= n,
            r@ == s@.subrange(0, k as int),
        decreases n - k,
    {
        r.push(s.get_char(k));
        k = k + 1;
        assert(r@ =~= s@.subrange(0, k as int));
    }
    assert(s@.subrange(0, n as int) =~= s@);
    r
}

/// The icon of an entry named `name`.
fn icon_of(is_dir: bool, name: &str) -> (c: char)
    ensures
        c == icon(is_dir, name@),
{
    if is_dir {
        return '\u{e5fe}';
    }
    let chars = chars_of(name);
    let n = chars.len();
    let mut k: usize = n;
    while k > 0 && chars[k - 1] != '.'
        invariant
            k <= n,
            n == chars@.len(),
            last_dot(chars@, n as int) == last_dot(chars@, k as int),
        decreases k,
    {
        k = k - 1;
    }
    if k <= 1 {
        return '\u{f0214}';
    }
    let mut ext: Vec<char> = Vec::new();
    let mut j: usize = k;
    while j < n
        invariant
            k <= j <= n,
            n == chars@.len(),
            ext@ == chars@.subrange(k as int, j as int),
        decreases n - j,
    {
        ext.push(chars[j]);
        j = j + 1;
        assert(ext@ =~= chars@.subrange(k as int, j as int));
    }
    ext_icon_of(&ext)
}

fn push_glyph(line: &mut String, glyph: &str, red: bool)
    ensures
        final(line)@ == old(line)@ + if red {
            red_text(glyph@)
        } else {
            glyph@
        },
{
    if red {
        let painted = paint_red(glyph);
        push_all(line, painted.as_str());
    } else {
        push_all(line, glyph);
    }
}

fn bar(ascii: bool) -> (r: String)
    ensures
        r@ == bar_glyph(ascii),
{
    let mut s = String::new();
    push_char(&mut s, if ascii { '|' } else { '\u{2502}' });
    push_char(&mut s, ' ');
    push_char(&mut s, ' ');
    push_char(&mut s, ' ');
    assert(s@ =~= bar_glyph(ascii));
    s
}

fn branch(opts: &Opts, is_last: bool) -> (r: String)
    ensures
        r@ == if opts.no_indent {
            Seq::empty()
        } else {
            branch_glyph(opts.ascii, is_last)
        },
{
    let mut s = String::new();
    if opts.no_indent {
        assert(s@ =~= Seq::<char>::empty());
        return s;
    }
    if is_last {
        if opts.ascii {
            push_char(&mut s, '+');
            push_char(&mut s, '-');
            push_char(&mut s, '-');
            push_char(&mut s, '-');
        } else {
            push_char(&mut s, '\u{2514}');
            push_char(&mut s, '\u{2500}');
            push_char(&mut s, '\u{2500}');
            push_char(&mut s, ' ');
        }
    } else {
        if opts.ascii {
            push_char(&mut s, '|');
            push_char(&mut s, '-');
            push_char(&mut s, '-');
            push_char(&mut s, '-');
        } else {
            push_char(&mut s, '\u{251c}');
            push_char(&mut s, '\u{2500}');
            push_char(&mut s, '\u{2500}');
            push_char(&mut s, ' ');
        }
    }
    assert(s@ =~= branch_glyph(opts.ascii, is_last));
    s
}

fn red_from(furthest: Option<usize>, level: usize) -> (r: bool)
    ensures
        r == red_at(furthest_view(furthest), level as nat),
{
    match furthest {
        Some(f) => f < level,
        None => false,
    }
}

/// `furthest` as a depth.
pub open spec fn furthest_view(furthest: Option<usize>) -> Option<nat> {
    match furthest {
        Some(f) => Some(f as nat),
        None => None,
    }
}

/// Appends the path of entry `name` within the directory at `parent`.
pub(crate) fn push_joined(line: &mut String, parent: &str, name: &str)
    ensures
        final(line)@ == old(line)@ + join_path(parent@, name@),
{
    let n = parent.unicode_len();
    if n == 0 {
        push_all(line, name);
    } else if parent.get_char(n - 1) == '/' {
        push_all(line, parent);
        push_all(line, name);
        assert(final(line)@ =~= old(line)@ + join_path(parent@, name@));
    } else {
        push_all(line, parent);
        push_char(line, '/');
        push_all(line, name);
        assert(final(line)@ =~= old(line)@ + join_path(parent@, name@));
    }
}

/// Appends the indentation for the ancestors recorded in `indent`.
fn push_indent(line: &mut String, indent: &Vec<bool>, ascii: bool, furthest: Option<usize>)
    ensures
        final(line)@ == old(line)@ + indent_text(indent@, ascii, furthest_view(furthest)),
{
    let ghost start = line@;
    let mut level: usize = 0;
    assert(indent@.subrange(0, 0) =~= Seq::<bool>::empty());
    assert(line@ =~= start + indent_text(indent@.subrange(0, 0), ascii, furthest_view(furthest)));
    while level < indent.len()
        invariant
            level <= indent@.len(),
            line@ == start + indent_text(
                indent@.subrange(0, level as int),
                ascii,
                furthest_view(furthest),
            ),
        decreases indent@.len() - level,
    {
        let ghost next = indent@.subrange(0, level + 1);
        let ghost unit = if next.last() {
            blank_glyph()
        } else if red_at(furthest_view(furthest), level as nat) {
            red_text(bar_glyph(ascii))
        } else {
            bar_glyph(ascii)
        };
        let ghost before = line@;
        if indent[level] {
            push_char(line, ' ');
            push_char(line, ' ');
            push_char(line, ' ');
            push_char(line, ' ');
        } else {
            let glyph = bar(ascii);
            let red = red_from(furthest, level);
            push_glyph(line, glyph.as_str(), red);
        }
        proof {
            assert(next.last() == indent@[level as int]);
            assert(line@ =~= before + unit);
            assert(next.drop_last() =~= indent@.subrange(0, level as int));
            assert(indent_text(next, ascii, furthest_view(furthest)) == indent_text(
                indent@.subrange(0, level as int),
                ascii,
                furthest_view(furthest),
            ) + unit);
            assert(line@ =~= start + indent_text(next, ascii, furthest_view(furthest)));
        }
        level = level + 1;
    }
    assert(indent@.subrange(0, level as int) =~= indent@);
}

/// Appends the icon and the name (or path) of `entry`.
fn push_name(line: &mut String, entry: &Entry, opts: &Opts, parent_path: &str, highlight: bool)
    ensures
        final(line)@ == old(line)@ + name_text(*entry, *opts, parent_path@, highlight),
{
    let mut shown = String::new();
    push_char(&mut shown, icon_of(entry.is_dir, entry.name.as_str()));
    push_char(&mut shown, ' ');
    if opts.full_path {
        push_joined(&mut shown, parent_path, entry.name.as_str());
    } else {
        push_all(&mut shown, entry.name.as_str());
    }
    if highlight {
        let painted = paint_bold_red(shown.as_str());
        push_all(line, painted.as_str());
    } else {
        push_all(line, shown.as_str());
    }
    assert(final(line)@ =~= old(line)@ + name_text(*entry, *opts, parent_path@, highlight));
}

/// Appends the size and date that follow the name, where asked for.
fn push_suffixes(line: &mut String, entry: &Entry, opts: &Opts)
    ensures
        final(line)@ == old(line)@ + (if !entry.is_dir && opts.print_size {
            seq![' ', '('] + size_text(entry.size as nat) + seq![')']
        } else {
            Seq::empty()
        }) + (if opts.last_modify {
            seq![' ', '['] + match entry.modified {
                Some(t) => timestamp_text(t),
                None => unknown_date_text(),
            } + seq![']']
        } else {
            Seq::empty()
        }),
{
    let ghost start = line@;
    if !entry.is_dir && opts.print_size {
        push_char(line, ' ');
        push_char(line, '(');
        let size = format_file_size(entry.size);
        push_all(line, size.as_str());
        push_char(line, ')');
    }
    let ghost mid = line@;
    if opts.last_modify {
        push_char(line, ' ');
        push_char(line, '[');
        match entry.modified {
            Some(t) => {
                let date = format_date(t);
                push_all(line, date.as_str());
            },
            None => {
                push_unknown_date(line);
            },
        }
        push_char(line, ']');
    }
    assert(final(line)@ =~= old(line)@ + (if !entry.is_dir && opts.print_size {
        seq![' ', '('] + size_text(entry.size as nat) + seq![')']
    } else {
        Seq::empty()
    }) + (if opts.last_modify {
        seq![' ', '['] + match entry.modified {
            Some(t) => timestamp_text(t),
            None => unknown_date_text(),
        } + seq![']']
    } else {
        Seq::empty()
    }));
}

/// The line of `entry`, inside the directory at `parent_path`, under the
/// ancestors recorded in `indent_state` (true where an ancestor was its
/// parent's last listed entry). `first_ancestor_matched` is the smallest
/// depth of a highlighted ancestor, if any.
pub fn format_entry_line(
    entry: &Entry,
    opts: &Opts,
    parent_path: &str,
    indent_state: &Vec<bool>,
    is_last: bool,
    highlight: bool,
    first_ancestor_matched: Option<usize>,
) -> (r: String)
    ensures
        r@ == entry_line(
            *entry,
            *opts,
            parent_path@,
            indent_state@,
            is_last,
            highlight,
            furthest_view(first_ancestor_matched),
        ),
{
    let mut line = String::new();
    if opts.print_permissions {
        let perms = format_permissions(entry.mode, entry.is_dir);
        push_all(&mut line, perms.as_str());
        push_char(&mut line, ' ');
    }
    let ghost after_perms = line@;
    if !opts.no_indent {
        push_indent(&mut line, indent_state, opts.ascii, first_ancestor_matched);
    }
    let glyph = branch(opts, is_last);
    let red = red_from(first_ancestor_matched, indent_state.len());
    push_glyph(&mut line, glyph.as_str(), red);
    push_name(&mut line, entry, opts, parent_path, highlight);
    push_suffixes(&mut line, entry, opts);
    assert(line@ =~= entry_line(
        *entry,
        *opts,
        parent_path@,
        indent_state@,
        is_last,
        highlight,
        furthest_view(first_ancestor_matched),
    ));
    line
}

} // verus!
