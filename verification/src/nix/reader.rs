//! Parsing Nix source text into a [`NixFile`].
use vstd::prelude::*;
use vstd::string::*;
use crate::text::{
    char_utf8_len, chars_of, dec, dec_u64, len_utf8, lines, lines_exec, push_all, string_from,
    utf8_len, views,
};
use crate::intent::assertions::count_char;
use crate::nix::ast::within;
use crate::nix::syntax::{
    build_tree, char_index_of_byte, source_error, has_tree, ranges_ok, parse_error_of,
    rnix_walk, walk, walk_source, SyntaxNode,
};

verus! {

/// A parsed Nix source file: its text, its characters, and its syntax tree
/// with byte and character ranges.
#[derive(Debug)]
pub struct NixFile {
    /// The source text as given.
    pub source: String,
    /// The characters of the source.
    pub chars: Vec<char>,
    /// The root of the syntax tree (`NODE_ROOT`).
    pub root: SyntaxNode,
}

impl NixFile {
    /// The file is what [`parse_string`] makes of its source: the tree is
    /// rnix's, and every range lies on character boundaries of the source.
    pub open spec fn wf(&self) -> bool {
        &&& self.chars@ == self.source@
        &&& walk(self.root) == rnix_walk(self.source@)
        &&& ranges_ok(self.root, self.source@)
    }
}

pub proof fn lemma_ranges_within(n: SyntaxNode, s: Seq<char>)
    requires
        ranges_ok(n, s),
    ensures
        within(n, s),
    decreases n,
{
    assert forall|i: int| 0 <= i < n.children@.len() implies within(#[trigger] n.children@[i], s) by {
        lemma_ranges_within(n.children@[i], s);
    }
}

/// Errors of reading or parsing a Nix file.
#[derive(Debug)]
pub enum NixParseError {
    /// An I/O error reading the file, by its message.
    IoError(String),
    /// A syntax error, with 1-based line and column and rnix's message.
    SyntaxError { line: usize, column: usize, message: String },
}

/// The display text of a parse error.
pub open spec fn parse_error_text(e: NixParseError) -> Seq<char> {
    match e {
        NixParseError::IoError(m) => "I/O error: "@ + m@,
        NixParseError::SyntaxError { line, column, message } => syntax_error_message(line, column, message@),
    }
}

/// The display text of a syntax error.
pub open spec fn syntax_error_message(line: usize, column: usize, message: Seq<char>) -> Seq<char> {
    "syntax error at "@ + dec(line as nat) + ":"@ + dec(column as nat) + ": "@ + message
}

/// The display text of the syntax error rnix reports first for `s`, if any.
pub open spec fn syntax_error_text(s: Seq<char>) -> Option<Seq<char>> {
    match parse_error_of(s) {
        Some((pos, msg)) => {
            let (line, column) = error_position(s, pos);
            Some(syntax_error_message(line, column, msg))
        },
        None => None,
    }
}

impl NixParseError {
    /// The error's display text.
    pub fn message(&self) -> (r: String)
        ensures
            r@ == parse_error_text(*self),
    {
        let v = match self {
            NixParseError::IoError(m) => {
                let mut v = chars_of("I/O error: ");
                push_all(&mut v, &chars_of(m.as_str()));
                v
            },
            NixParseError::SyntaxError { line, column, message } => {
                let mut v = chars_of("syntax error at ");
                push_all(&mut v, &dec_u64(*line as u64));
                push_all(&mut v, &chars_of(":"));
                push_all(&mut v, &dec_u64(*column as u64));
                push_all(&mut v, &chars_of(": "));
                push_all(&mut v, &chars_of(message.as_str()));
                v
            },
        };
        string_from(&v)
    }
}

/// The number of characters of `s` whose encoding ends at or before byte
/// offset `b`.
pub open spec fn chars_before_byte(s: Seq<char>, b: int) -> int
    decreases s.len(),
{
    if s.len() == 0 || b < char_utf8_len(s[0]) {
        0
    } else {
        1 + chars_before_byte(s.drop_first(), b - char_utf8_len(s[0]))
    }
}

proof fn lemma_chars_before_byte(s: Seq<char>, b: int)
    ensures
        0 <= chars_before_byte(s, b) <= s.len(),
        char_index_of_byte(s, b) matches Some(k) ==> chars_before_byte(s, b) == k,
    decreases s.len(),
{
    if s.len() > 0 && b >= char_utf8_len(s[0]) {
        lemma_chars_before_byte(s.drop_first(), b - char_utf8_len(s[0]));
    }
    if s.len() > 0 && b > 0 && b < char_utf8_len(s[0]) {
        assert(char_index_of_byte(s.drop_first(), b - char_utf8_len(s[0])) is None);
    }
}

/// `x` as a `usize`, or the largest `usize` where it does not fit.
pub open spec fn sat(x: int) -> usize {
    if x <= usize::MAX {
        x as usize
    } else {
        usize::MAX
    }
}

/// The index of the last `\n` of `p`, if any.
pub open spec fn last_newline(p: Seq<char>) -> Option<int>
    decreases p.len(),
{
    if p.len() == 0 {
        None
    } else if p.last() == '\n' {
        Some(p.len() - 1)
    } else {
        last_newline(p.drop_last())
    }
}

/// The 1-based line and column of the character that starts at byte
/// `offset` (the column counts characters); an offset past the end points
/// after the last character.
pub open spec fn line_col(src: Seq<char>, offset: int) -> (usize, usize) {
    let p = src.take(chars_before_byte(src, offset));
    let line = count_char(p, '\n') + 1;
    let column = match last_newline(p) {
        Some(nl) => p.len() - nl,
        None => p.len() + 1int,
    };
    (sat(line as int), sat(column))
}

fn line_col_exec(src: &Vec<char>, offset: usize) -> (r: (usize, usize))
    ensures
        r == line_col(src@, offset as int),
{
    let mut k: usize = 0;
    let mut rest: usize = offset;
    let mut line: usize = 1;
    let mut last_nl: Option<usize> = None;
    assert(src@.skip(0) =~= src@);
    while k < src.len() && len_utf8(src[k]) <= rest
        invariant
            0 <= k <= src@.len(),
            chars_before_byte(src@, offset as int) == k + chars_before_byte(src@.skip(k as int), rest as int),
            line == sat(count_char(src@.take(k as int), '\n') + 1int),
            last_nl == match last_newline(src@.take(k as int)) {
                Some(nl) => Some(nl as usize),
                None => None::<usize>,
            },
            last_newline(src@.take(k as int)) matches Some(nl) ==> 0 <= nl < k,
        decreases src@.len() - k,
    {
        let ghost t = src@.skip(k as int);
        assert(t[0] == src@[k as int]);
        assert(t.drop_first() =~= src@.skip(k + 1));
        assert(src@.take(k + 1).drop_last() =~= src@.take(k as int));
        rest = rest - len_utf8(src[k]);
        if src[k] == '\n' {
            if line < usize::MAX {
                line = line + 1;
            }
            last_nl = Some(k);
        }
        k += 1;
    }
    proof {
        lemma_chars_before_byte(src@.skip(k as int), rest as int);
        if k < src@.len() {
            assert(src@.skip(k as int)[0] == src@[k as int]);
        }
        assert(chars_before_byte(src@.skip(k as int), rest as int) == 0);
    }
    let column = match last_nl {
        Some(nl) => k - nl,
        None => if k < usize::MAX {
            k + 1
        } else {
            usize::MAX
        },
    };
    (line, column)
}

/// Convert a byte offset into `source` to a 1-based (line, column), the
/// column counting characters; an offset past the end is clamped to it.
pub fn byte_offset_to_line_col(source: &str, offset: usize) -> (r: (usize, usize))
    ensures
        r == line_col(source@, offset as int),
{
    line_col_exec(&chars_of(source), offset)
}

/// The position reported for a parse error: that of its range's start, or,
/// for an error without one, the end of the last line (1 when there are no
/// lines; the column counts the line's bytes).
pub open spec fn error_position(src: Seq<char>, pos: Option<usize>) -> (usize, usize) {
    match pos {
        Some(off) => line_col(src, off as int),
        None => {
            let ls = lines(src);
            if ls.len() == 0 {
                (1, 1)
            } else {
                let n = utf8_len(ls.last());
                (ls.len() as usize, if n + 1 <= usize::MAX { (n + 1) as usize } else { usize::MAX })
            }
        },
    }
}

/// The column after a line: its length in bytes plus one, or the largest
/// `usize` where that does not fit.
fn column_after(s: &Vec<char>) -> (c: usize)
    ensures
        c == (if utf8_len(s@) + 1 <= usize::MAX { (utf8_len(s@) + 1) as usize } else { usize::MAX }),
{
    let mut n: usize = 0;
    let mut big = false;
    for i in 0..s.len()
        invariant
            !big ==> n == utf8_len(s@.take(i as int)) && n < usize::MAX,
            big ==> utf8_len(s@.take(i as int)) + 1 > usize::MAX,
    {
        assert(s@.take(i + 1).drop_last() =~= s@.take(i as int));
        let w = len_utf8(s[i]);
        if !big {
            if n > usize::MAX - 1 - w {
                big = true;
            } else {
                n = n + w;
            }
        }
    }
    assert(s@.take(s@.len() as int) =~= s@);
    if big {
        usize::MAX
    } else {
        n + 1
    }
}

/// The message given when rnix's tree cannot be read back.
pub open spec fn unreadable_tree_message() -> Seq<char> {
    "syntax tree could not be read"@
}

/// rnix's tree for `source` can be read back: its walk is that of a tree
/// whose ranges fall on character boundaries of `source`.
pub open spec fn tree_readable(source: Seq<char>) -> bool {
    has_tree(rnix_walk(source), source)
}

/// Parse Nix source text.
///
/// When rnix reports a syntax error, the result is the first one: its
/// message, and the line and column of its start (or of the end of the
/// text, for an error without a position). Otherwise the result is the
/// file, whose tree is rnix's; should rnix's tree not lie on character
/// boundaries, a syntax error at 1:1 saying so. A text too long for rnix
/// (`MAX_PARSE_CHARS` characters or more) is refused with a syntax error
/// saying so, at the end of the text, before rnix sees it.
pub fn parse_string(source: &str) -> (r: Result<NixFile, NixParseError>)
    ensures
        match r {
            Ok(f) => f.source@ == source@ && f.wf() && parse_error_of(source@) is None && tree_readable(source@),
            Err(NixParseError::SyntaxError { line, column, message }) => match parse_error_of(source@) {
                Some((pos, msg)) => message@ == msg && (line, column) == error_position(source@, pos),
                None => message@ == unreadable_tree_message() && line == 1 && column == 1 && !tree_readable(source@),
            },
            Err(NixParseError::IoError(_)) => false,
        },
{
    let chars = chars_of(source);
    match source_error(source) {
        Some((pos, msg)) => {
            let (line, column) = match pos {
                Some(off) => line_col_exec(&chars, off),
                None => {
                    let ls = lines_exec(&chars);
                    if ls.len() == 0 {
                        (1, 1)
                    } else {
                        let last = &ls[ls.len() - 1];
                        assert(last@ == views(ls@).last());
                        (ls.len(), column_after(last))
                    }
                },
            };
            Err(NixParseError::SyntaxError { line, column, message: msg })
        },
        None => {
            let ev = walk_source(source);
            match build_tree(&ev, &chars) {
                Some(root) => Ok(NixFile { source: String::from_str(source), chars, root }),
                None => Err(
                    NixParseError::SyntaxError {
                        line: 1,
                        column: 1,
                        message: string_from(&chars_of("syntax tree could not be read")),
                    },
                ),
            }
        },
    }
}


fn error_position_exec(chars: &Vec<char>, pos: Option<usize>) -> (r: (usize, usize))
    ensures
        r == error_position(chars@, pos),
{
    match pos {
        Some(off) => line_col_exec(chars, off),
        None => {
            let ls = lines_exec(chars);
            if ls.len() == 0 {
                (1, 1)
            } else {
                let last = &ls[ls.len() - 1];
                assert(last@ == views(ls@).last());
                (ls.len(), column_after(last))
            }
        },
    }
}

/// Check that `source` parses: nothing when rnix reports no error, else the
/// display text of the first syntax error (a text too long for rnix being
/// refused as such).
pub fn validate_source(source: &str) -> (r: Result<(), String>)
    ensures
        r is Ok <==> parse_error_of(source@) is None,
        r matches Err(m) ==> syntax_error_text(source@) == Some(m@),
{
    match source_error(source) {
        None => Ok(()),
        Some((pos, msg)) => {
            let chars = chars_of(source);
            let (line, column) = error_position_exec(&chars, pos);
            let e = NixParseError::SyntaxError { line, column, message: msg };
            Err(e.message())
        },
    }
}

} // verus!
