use vstd::prelude::*;
use vstd::string::{StrSliceExecFns, StringExecFns};
use vstd::utf8::encode_utf8;

verus! {

/// Column alignment of a table.
#[derive(Copy, Clone, Debug, PartialEq, Eq, PartialOrd, Ord, Hash, Structural)]
pub enum Alignment {
    /// No alignment given.
    Unset,
    Left,
    Center,
    Right,
}

#[derive(Clone, Copy, Debug, PartialEq, Eq, PartialOrd, Ord, Hash, Structural)]
pub enum CodeBlockKind {
    Indented,
    Fenced,
}

#[derive(Clone, Debug, PartialEq, Eq, PartialOrd, Ord, Hash)]
pub enum LinkCategory {
    AngleBracketed,
    Reference { uri: String, title: String, id: String },
    Collapsed { uri: String, title: String },
    Shortcut { uri: String, title: String },
    Other { uri: String, title: String },
}

#[derive(Clone, Debug, PartialEq, Eq, PartialOrd, Ord, Hash)]
pub enum ImageLink {
    Reference { uri: String, title: String, id: String },
    Collapsed { uri: String, title: String },
    Shortcut { uri: String, title: String },
    Other { uri: String, title: String },
}

/// The id, classes and attributes of the heading being written.
#[derive(Clone, Debug, PartialEq, Eq, PartialOrd, Ord, Hash)]
pub struct Heading {
    id: Option<String>,
    classes: Vec<String>,
    attributes: Vec<(String, Option<String>)>,
}

/// The failures of writing Markdown.
#[derive(Clone, Copy, Debug, PartialEq, Eq, Structural)]
pub enum Error {
    FormatFailed,
    UnexpectedEvent,
}

/// The state of a Markdown writer between events.
#[derive(Clone, Debug)]
pub struct State {
    /// The number of newlines to write before the next block starts.
    pub newlines_before_start: usize,
    /// The lists entered so far, each with its next number if it is ordered.
    pub list_stack: Vec<Option<u64>>,
    /// The prefixes to write after each newline, one per level of nesting.
    pub padding: Vec<String>,
    /// The column alignments of the table being written.
    pub table_alignments: Vec<Alignment>,
    /// The headers of the table being written.
    pub table_headers: Vec<String>,
    /// The last text seen in a heading.
    pub text_for_header: Option<String>,
    /// Set while text of a code block is written.
    pub code_block: Option<CodeBlockKind>,
    pub last_was_text_without_trailing_newline: bool,
    pub last_was_paragraph_start: bool,
    /// The next event is a link, an image or a footnote.
    pub next_is_link_like: bool,
    pub link_stack: Vec<LinkCategory>,
    pub image_stack: Vec<ImageLink>,
    pub current_heading: Option<Heading>,
    pub in_table_cell: bool,
    pub current_shortcut_text: Option<String>,
    pub shortcuts: Vec<(String, String, String)>,
    /// Index into the source of the end of the last event's range.
    pub last_event_end_index: usize,
}

impl State {
    /// A writer at the start of a document.
    pub fn new() -> (s: State)
        ensures
            s.newlines_before_start == 0,
            s.padding@.len() == 0,
            s.table_alignments@.len() == 0,
            s.code_block is None,
            !s.next_is_link_like,
            s.current_heading is None,
    {
        State {
            newlines_before_start: 0,
            list_stack: Vec::new(),
            padding: Vec::new(),
            table_alignments: Vec::new(),
            table_headers: Vec::new(),
            text_for_header: None,
            code_block: None,
            last_was_text_without_trailing_newline: false,
            last_was_paragraph_start: false,
            next_is_link_like: false,
            link_stack: Vec::new(),
            image_stack: Vec::new(),
            current_heading: None,
            in_table_cell: false,
            current_shortcut_text: None,
            shortcuts: Vec::new(),
            last_event_end_index: 0,
        }
    }

    pub fn is_in_code_block(&self) -> (r: bool)
        ensures
            r == self.code_block is Some,
    {
        self.code_block.is_some()
    }
}

/// The count of backticks that a fenced code block takes by default.
pub const DEFAULT_CODE_BLOCK_TOKEN_COUNT: usize = 3;

/// How the Markdown writer lays out its output.
#[derive(Clone, Debug)]
pub struct Options {
    pub newlines_after_headline: usize,
    pub newlines_after_paragraph: usize,
    pub newlines_after_codeblock: usize,
    pub newlines_after_htmlblock: usize,
    pub newlines_after_table: usize,
    pub newlines_after_rule: usize,
    pub newlines_after_list: usize,
    pub newlines_after_blockquote: usize,
    pub newlines_after_rest: usize,
    pub newlines_after_metadata: usize,
    pub code_block_token_count: usize,
    pub code_block_token: char,
    pub list_token: char,
    pub ordered_list_token: char,
    pub increment_ordered_list_bullets: bool,
    pub emphasis_token: char,
    pub strong_token: String,
}

/// The characters that always need an escape in text.
pub open spec fn base_special() -> Seq<char> {
    seq!['#', '\\', '_', '*', '<', '>', '`', '|', '[', ']']
}

/// Relies on `String::push`: the string grows by the one character.
#[verifier::external_body]
fn push_char(s: &mut String, c: char)
    ensures
        final(s)@ == old(s)@.push(c),
{
    s.push(c)
}

impl Options {
    /// The default layout.
    pub fn new() -> (o: Options)
        ensures
            o.code_block_token == '`',
            o.list_token == '*',
            o.emphasis_token == '*',
            o.strong_token@ == seq!['*', '*'],
    {
        let mut strong = String::new();
        push_char(&mut strong, '*');
        push_char(&mut strong, '*');
        Options {
            newlines_after_headline: 2,
            newlines_after_paragraph: 2,
            newlines_after_codeblock: 2,
            newlines_after_htmlblock: 1,
            newlines_after_table: 2,
            newlines_after_rule: 2,
            newlines_after_list: 2,
            newlines_after_blockquote: 2,
            newlines_after_rest: 1,
            newlines_after_metadata: 1,
            code_block_token_count: 4,
            code_block_token: '`',
            list_token: '*',
            ordered_list_token: '.',
            increment_ordered_list_bullets: false,
            emphasis_token: '*',
            strong_token: strong,
        }
    }

    /// The tokens of these options are the default ones.
    pub open spec fn default_tokens(&self) -> bool {
        &&& self.code_block_token == '`'
        &&& self.list_token == '*'
        &&& self.emphasis_token == '*'
        &&& self.strong_token@ == seq!['*', '*']
    }

    /// The characters that text must escape: the base set, and with other
    /// tokens than the default ones, those tokens too.
    pub open spec fn special_spec(&self) -> Seq<char> {
        if self.default_tokens() {
            base_special()
        } else {
            base_special() + seq![self.code_block_token, self.list_token, self.emphasis_token] + self.strong_token@
        }
    }

    pub fn special_characters(&self) -> (r: String)
        ensures
            r@ == self.special_spec(),
    {
        proof {
            reveal_strlit("#\\_*<>`|[]");
            reveal_strlit("**");
        }
        let mut s = String::from_str("#\\_*<>`|[]");
        assert(s@ =~= base_special());
        if self.code_block_token == '`' && self.list_token == '*' && self.emphasis_token == '*'
            && self.strong_token.as_str().unicode_len() == 2 && self.strong_token.as_str().get_char(0) == '*'
            && self.strong_token.as_str().get_char(1) == '*' {
            assert(self.strong_token@ =~= seq!['*', '*']);
            s
        } else {
            push_char(&mut s, self.code_block_token);
            push_char(&mut s, self.list_token);
            push_char(&mut s, self.emphasis_token);
            s.append(self.strong_token.as_str());
            assert(s@ =~= base_special() + seq![self.code_block_token, self.list_token, self.emphasis_token] + self.strong_token@);
            s
        }
    }
}

/// The strings of `p` one after another.
pub open spec fn concat(p: Seq<String>) -> Seq<char>
    decreases p.len(),
{
    if p.len() == 0 {
        seq![]
    } else {
        concat(p.drop_last()) + p.last()@
    }
}

/// `s` written `n` times.
pub open spec fn repeat(s: Seq<char>, n: nat) -> Seq<char>
    decreases n,
{
    if n == 0 {
        seq![]
    } else {
        repeat(s, (n - 1) as nat) + s
    }
}

/// `t` with each newline followed by `pad`.
pub open spec fn pad_lines(t: Seq<char>, pad: Seq<char>) -> Seq<char>
    decreases t.len(),
{
    if t.len() == 0 {
        seq![]
    } else {
        pad_lines(t.drop_last(), pad) + if t.last() == '\n' {
            seq!['\n'] + pad
        } else {
            seq![t.last()]
        }
    }
}

/// Writes the prefixes of `p` one after another.
pub fn padding(f: &mut String, p: &[String])
    ensures
        final(f)@ == old(f)@ + concat(p@),
{
    let n = p.len();
    let mut i: usize = 0;
    while i < n
        invariant
            i <= n,
            n == p@.len(),
            f@ == old(f)@ + concat(p@.take(i as int)),
        decreases n - i,
    {
        f.append(p[i].as_str());
        assert(p@.take(i + 1).drop_last() =~= p@.take(i as int));
        i = i + 1;
    }
    assert(p@.take(n as int) =~= p@);
}

/// Writes the newlines due before the next block, each followed by the
/// padding, and clears the count.
pub fn consume_newlines(f: &mut String, s: &mut State)
    ensures
        final(f)@ == old(f)@ + repeat(seq!['\n'] + concat(old(s).padding@), old(s).newlines_before_start as nat),
        final(s).newlines_before_start == 0,
        final(s).padding == old(s).padding,
        final(s).code_block == old(s).code_block,
        final(s).table_alignments == old(s).table_alignments,
{
    let ghost line = seq!['\n'] + concat(s.padding@);
    let ghost n = s.newlines_before_start;
    while s.newlines_before_start != 0
        invariant
            s.newlines_before_start <= n,
            n == old(s).newlines_before_start,
            s.padding == old(s).padding,
            s.code_block == old(s).code_block,
            s.table_alignments == old(s).table_alignments,
            line == seq!['\n'] + concat(s.padding@),
            f@ == old(f)@ + repeat(line, (n - s.newlines_before_start) as nat),
        decreases s.newlines_before_start,
    {
        s.newlines_before_start = s.newlines_before_start - 1;
        push_char(f, '\n');
        padding(f, s.padding.as_slice());
        assert(repeat(line, (n - s.newlines_before_start) as nat) =~= repeat(line, (n - s.newlines_before_start - 1) as nat) + line);
    }
}

/// Writes a newline followed by the current padding.
pub fn write_padded_newline(formatter: &mut String, state: &State)
    ensures
        final(formatter)@ == old(formatter)@ + seq!['\n'] + concat(state.padding@),
{
    push_char(formatter, '\n');
    padding(formatter, state.padding.as_slice());
}

/// Writes `t`, following each of its newlines with the padding `p`.
pub fn print_text_without_trailing_newline(t: &str, f: &mut String, p: &[String])
    ensures
        final(f)@ == old(f)@ + pad_lines(t@, concat(p@)),
{
    let n = t.unicode_len();
    let mut i: usize = 0;
    while i < n
        invariant
            i <= n,
            n == t@.len(),
            f@ == old(f)@ + pad_lines(t@.take(i as int), concat(p@)),
        decreases n - i,
    {
        let c = t.get_char(i);
        assert(t@.take(i + 1).drop_last() =~= t@.take(i as int));
        if c == '\n' {
            push_char(f, '\n');
            padding(f, p);
        } else {
            push_char(f, c);
        }
        i = i + 1;
        assert(f@ =~= old(f)@ + pad_lines(t@.take(i as int), concat(p@)));
    }
    assert(t@.take(n as int) =~= t@);
}

/// Number of decimal digits of `n`.
pub open spec fn digits(n: u64) -> nat
    decreases n,
{
    if n < 10 {
        1
    } else {
        1 + digits(n / 10)
    }
}

/// The indent of the content of a list item: two spaces for a bullet, and for
/// a number `n` as many as "n. " is wide.
pub fn padding_of(l: Option<u64>) -> (r: String)
    ensures
        r@ == Seq::new(
            match l {
                None => 2,
                Some(n) => digits(n) + 2,
            },
            |i: int| ' ',
        ),
{
    let width: usize = match l {
        None => 2,
        Some(n) => {
            let mut m = n;
            let mut d: usize = 1;
            proof {
                lemma_digits_le(n, 20);
            }
            while m >= 10
                invariant
                    d + digits(m) == digits(n) + 1,
                    digits(n) <= 20,
                    digits(m) >= 1,
                decreases m,
            {
                m = m / 10;
                d = d + 1;
            }
            d + 2
        },
    };
    let mut r = String::new();
    let mut i: usize = 0;
    while i < width
        invariant
            i <= width,
            r@ == Seq::new(i as nat, |k: int| ' '),
        decreases width - i,
    {
        push_char(&mut r, ' ');
        i = i + 1;
        assert(r@ =~= Seq::new(i as nat, |k: int| ' '));
    }
    r
}

/// Ten to the power `k`.
pub open spec fn pow10(k: nat) -> nat
    decreases k,
{
    if k == 0 {
        1
    } else {
        10 * pow10((k - 1) as nat)
    }
}

proof fn lemma_digits_le(m: u64, k: nat)
    requires
        k >= 1,
        m < pow10(k) || k == 20,
    ensures
        1 <= digits(m) <= k,
    decreases k,
{
    if k == 20 {
        reveal_with_fuel(pow10, 21);
        assert(m < pow10(20));
    }
    if m >= 10 {
        if k == 1 {
            reveal_with_fuel(pow10, 2);
            assert(pow10(1) == 10);
        } else {
            let p = pow10((k - 1) as nat);
            assert(m / 10 < p) by (nonlinear_arith)
                requires
                    m < 10 * p,
            ;
            lemma_digits_le(m / 10, (k - 1) as nat);
        }
    }
}

/// Length of the run of `c` that ends `s`.
pub open spec fn trailing_run(s: Seq<char>, c: char) -> nat
    decreases s.len(),
{
    if s.len() == 0 {
        0
    } else if s.last() == c {
        trailing_run(s.drop_last(), c) + 1
    } else {
        0
    }
}

/// Length of the longest run of `c` in `s`.
pub open spec fn max_run(s: Seq<char>, c: char) -> nat
    decreases s.len(),
{
    if s.len() == 0 {
        0
    } else {
        let before = max_run(s.drop_last(), c);
        let here = trailing_run(s, c);
        if before >= here {
            before
        } else {
            here
        }
    }
}

/// The length of the longest run of `search` in `text`.
pub fn max_consecutive_chars(text: &str, search: char) -> (r: usize)
    ensures
        r == max_run(text@, search),
{
    let n = text.unicode_len();
    let mut in_search_chars = false;
    let mut max_count: usize = 0;
    let mut cur_count: usize = 0;
    let mut i: usize = 0;
    while i < n
        invariant
            i <= n,
            n == text@.len(),
            cur_count == trailing_run(text@.take(i as int), search),
            cur_count <= i,
            in_search_chars == (cur_count > 0),
            max_count <= max_run(text@.take(i as int), search),
            (if max_count >= cur_count { max_count } else { cur_count }) == max_run(text@.take(i as int), search),
        decreases n - i,
    {
        let ch = text.get_char(i);
        assert(text@.take(i + 1).drop_last() =~= text@.take(i as int));
        if ch == search {
            cur_count = cur_count + 1;
            in_search_chars = true;
        } else if in_search_chars {
            if cur_count > max_count {
                max_count = cur_count;
            }
            cur_count = 0;
            in_search_chars = false;
        }
        i = i + 1;
    }
    assert(text@.take(n as int) =~= text@);
    if max_count >= cur_count {
        max_count
    } else {
        cur_count
    }
}

/// The character at index `i` of `t` gets a backslash before it: the first one
/// when it is special, the last one when it would end a link or a heading, and
/// every pipe in a table.
pub open spec fn needs_escape(t: Seq<char>, i: int, first_special: bool, ends_special: bool, pipes: bool) -> bool {
    (i == 0 && first_special) || (i == t.len() - 1 && ends_special) || (t[i] == '|' && pipes)
}

/// The first `k` characters of `t` with their escapes.
pub open spec fn escaped_prefix(t: Seq<char>, k: int, first_special: bool, ends_special: bool, pipes: bool) -> Seq<char>
    decreases k,
{
    if k <= 0 {
        seq![]
    } else {
        escaped_prefix(t, k - 1, first_special, ends_special, pipes) + if needs_escape(t, k - 1, first_special, ends_special, pipes) {
            seq!['\\', t[k - 1]]
        } else {
            seq![t[k - 1]]
        }
    }
}

/// The text `t` as it is written in the state `state` with `options`.
pub open spec fn escape_spec(t: Seq<char>, state: State, options: Options) -> Seq<char> {
    if state.code_block is Some || t.len() == 0 {
        t
    } else {
        let first_special = options.special_spec().contains(t[0]);
        let ends_special = (state.next_is_link_like && t.last() == '!') || (state.current_heading is Some && t.last() == '#');
        let pipes = state.table_alignments@.len() > 0 && t.contains('|');
        escaped_prefix(t, t.len() as int, first_special, ends_special, pipes)
    }
}

fn contains_char(s: &str, c: char) -> (r: bool)
    ensures
        r == s@.contains(c),
{
    let n = s.unicode_len();
    let mut i: usize = 0;
    while i < n
        invariant
            i <= n,
            n == s@.len(),
            forall|k: int| 0 <= k < i ==> s@[k] != c,
        decreases n - i,
    {
        if s.get_char(i) == c {
            return true;
        }
        i = i + 1;
    }
    false
}

/// Escapes the characters of `t` that would otherwise be read as Markdown.
pub fn escape_special_characters(t: &str, state: &State, options: &Options) -> (r: String)
    ensures
        r@ == escape_spec(t@, *state, *options),
{
    let n = t.unicode_len();
    if state.is_in_code_block() || n == 0 {
        return String::from_str(t);
    }
    let first = t.get_char(0);
    let special = options.special_characters();
    let first_special = contains_char(special.as_str(), first);
    let last = t.get_char(n - 1);
    let ends_special = (state.next_is_link_like && last == '!') || (state.current_heading.is_some() && last == '#');
    let pipes = state.table_alignments.len() > 0 && contains_char(t, '|');
    let mut s = String::new();
    let mut i: usize = 0;
    while i < n
        invariant
            i <= n,
            n == t@.len(),
            s@ == escaped_prefix(t@, i as int, first_special, ends_special, pipes),
        decreases n - i,
    {
        let c = t.get_char(i);
        if (i == 0 && first_special) || (i == n - 1 && ends_special) || (c == '|' && pipes) {
            push_char(&mut s, '\\');
        }
        push_char(&mut s, c);
        i = i + 1;
        assert(s@ =~= escaped_prefix(t@, i as int, first_special, ends_special, pipes));
    }
    s
}

/// `t` as a link title holds it: double quotes and backslashes escaped.
pub open spec fn escaped_title(t: Seq<char>) -> Seq<char>
    decreases t.len(),
{
    if t.len() == 0 {
        seq![]
    } else {
        escaped_title(t.drop_last()) + if t.last() == '"' {
            seq!['\\', '"']
        } else if t.last() == '\\' {
            seq!['\\', '\\']
        } else {
            seq![t.last()]
        }
    }
}

/// Writes `t` as a link title, escaping its double quotes and backslashes.
pub fn write_link_title(f: &mut String, t: &str)
    ensures
        final(f)@ == old(f)@ + escaped_title(t@),
{
    let n = t.unicode_len();
    let mut i: usize = 0;
    while i < n
        invariant
            i <= n,
            n == t@.len(),
            f@ == old(f)@ + escaped_title(t@.take(i as int)),
        decreases n - i,
    {
        let c = t.get_char(i);
        assert(t@.take(i + 1).drop_last() =~= t@.take(i as int));
        if c == '"' || c == '\\' {
            push_char(f, '\\');
        }
        push_char(f, c);
        i = i + 1;
        assert(f@ =~= old(f)@ + escaped_title(t@.take(i as int)));
    }
    assert(t@.take(n as int) =~= t@);
}

/// The parenthesis depth of a link destination, read byte by byte from `i`
/// with depth `depth`: a space counts as an opening and ends the reading, as
/// does a depth above three.
pub open spec fn bracket_depth(b: Seq<u8>, i: int, depth: int) -> int
    decreases b.len() - i,
{
    if i >= b.len() || i < 0 {
        depth
    } else if b[i] == 32 {
        depth + 1
    } else {
        let d = if b[i] == 40 {
            depth + 1
        } else if b[i] == 41 {
            depth - 1
        } else {
            depth
        };
        if d > 3 {
            d
        } else {
            bracket_depth(b, i + 1, d)
        }
    }
}

/// A link destination needs angle brackets when its parentheses do not balance
/// or it holds a space.
pub open spec fn needs_brackets(uri: Seq<char>) -> bool {
    bracket_depth(encode_utf8(uri), 0, 0) != 0
}

/// What closing a link writes: the separator, the destination, the title if
/// there is one, and for all but shortcut links the closing parenthesis.
pub open spec fn close_link_text(uri: Seq<char>, title: Seq<char>, shortcut: bool) -> Seq<char> {
    let separator = if shortcut { seq![':', ' '] } else { seq!['('] };
    let target = if needs_brackets(uri) { seq!['<'] + uri + seq!['>'] } else { uri };
    let titled = if title.len() > 0 { seq![' ', '"'] + escaped_title(title) + seq!['"'] } else { seq![] };
    seq![']'] + separator + target + titled + if shortcut { seq![] } else { seq![')'] }
}

fn has_unbalanced_brackets(uri: &str) -> (r: bool)
    ensures
        r == needs_brackets(uri@),
{
    let b = uri.as_bytes();
    let n = b.len();
    let mut depth: i128 = 0;
    let mut i: usize = 0;
    while i < n
        invariant
            i <= n,
            n == b@.len(),
            b@ == encode_utf8(uri@),
            -(i as int) <= depth <= 3,
            bracket_depth(b@, 0, 0) == bracket_depth(b@, i as int, depth as int),
        decreases n - i,
    {
        let c = b[i];
        if c == 32u8 {
            return depth + 1 != 0;
        }
        if c == 40u8 {
            depth = depth + 1;
        } else if c == 41u8 {
            depth = depth - 1;
        }
        if depth > 3 {
            return true;
        }
        i = i + 1;
    }
    depth != 0
}

/// Closes a link: writes `close_link_text(uri, title, shortcut)`.
pub fn close_link(uri: &str, title: &str, f: &mut String, shortcut: bool)
    ensures
        final(f)@ == old(f)@ + close_link_text(uri@, title@, shortcut),
{
    push_char(f, ']');
    if shortcut {
        push_char(f, ':');
        push_char(f, ' ');
    } else {
        push_char(f, '(');
    }
    if has_unbalanced_brackets(uri) {
        push_char(f, '<');
        f.append(uri);
        push_char(f, '>');
    } else {
        f.append(uri);
    }
    let n = title.unicode_len();
    if n > 0 {
        push_char(f, ' ');
        push_char(f, '"');
        write_link_title(f, title);
        push_char(f, '"');
    }
    if !shortcut {
        push_char(f, ')');
    }
    assert(f@ =~= old(f)@ + close_link_text(uri@, title@, shortcut));
}

/// The views of a list of shortcut definitions: text, destination, title.
pub open spec fn shortcut_views(s: Seq<(String, String, String)>) -> Seq<(Seq<char>, Seq<char>, Seq<char>)> {
    s.map_values(|t: (String, String, String)| (t.0@, t.1@, t.2@))
}

/// The definition lines of the first `k` shortcuts, each written once.
pub open spec fn shortcut_lines(s: Seq<(Seq<char>, Seq<char>, Seq<char>)>, k: int) -> Seq<char>
    decreases k,
{
    if k <= 0 {
        seq![]
    } else {
        shortcut_lines(s, k - 1) + if s.take(k - 1).contains(s[k - 1]) {
            seq![]
        } else {
            seq!['\n', '['] + s[k - 1].0 + close_link_text(s[k - 1].1, s[k - 1].2, true)
        }
    }
}

proof fn lemma_push_contains<A>(s: Seq<A>, v: A, y: A)
    ensures
        s.push(v).contains(y) <==> (s.contains(y) || y == v),
{
    if s.contains(y) {
        let k = choose|k: int| 0 <= k < s.len() && s[k] == y;
        assert(s.push(v)[k] == y);
    }
    if y == v {
        assert(s.push(v)[s.len() as int] == v);
    }
    if s.push(v).contains(y) {
        let k = choose|k: int| 0 <= k < s.len() + 1 && s.push(v)[k] == y;
        if k < s.len() {
            assert(s[k] == y);
        }
    }
}

fn same_shortcut(a: &(String, String, String), b: &(String, String, String)) -> (r: bool)
    ensures
        r == ((a.0@, a.1@, a.2@) == (b.0@, b.1@, b.2@)),
{
    a.0 == b.0 && a.1 == b.1 && a.2 == b.2
}

impl State {
    /// Ends the document: after a blank line, writes the definition of each
    /// shortcut link seen, once per distinct definition, and empties the list.
    pub fn finalize(self, formatter: &mut String) -> (r: State)
        ensures
            final(formatter)@ == old(formatter)@ + if self.shortcuts@.len() == 0 {
                seq![]
            } else {
                seq!['\n'] + shortcut_lines(shortcut_views(self.shortcuts@), self.shortcuts@.len() as int)
            },
            r.shortcuts@.len() == 0,
            r == (State { shortcuts: r.shortcuts, ..self }),
    {
        let mut state = self;
        let n = state.shortcuts.len();
        if n == 0 {
            return state;
        }
        let ghost sv = shortcut_views(state.shortcuts@);
        push_char(formatter, '\n');
        let ghost start = formatter@;
        let mut written: Vec<(String, String, String)> = Vec::new();
        let mut i: usize = 0;
        while i < n
            invariant
                i <= n,
                n == state.shortcuts@.len(),
                sv == shortcut_views(state.shortcuts@),
                formatter@ == start + shortcut_lines(sv, i as int),
                forall|x: (Seq<char>, Seq<char>, Seq<char>)| shortcut_views(written@).contains(x) <==> sv.take(i as int).contains(x),
            decreases n - i,
        {
            let ghost x = sv[i as int];
            assert(x == (state.shortcuts@[i as int].0@, state.shortcuts@[i as int].1@, state.shortcuts@[i as int].2@));
            let mut seen = false;
            let mut j: usize = 0;
            while j < written.len()
                invariant
                    j <= written@.len(),
                    i < n,
                    n == state.shortcuts@.len(),
                    sv == shortcut_views(state.shortcuts@),
                    x == sv[i as int],
                    formatter@ == start + shortcut_lines(sv, i as int),
                    forall|y: (Seq<char>, Seq<char>, Seq<char>)| shortcut_views(written@).contains(y) <==> sv.take(i as int).contains(y),
                    seen == shortcut_views(written@).take(j as int).contains(x),
                decreases written@.len() - j,
            {
                assert(shortcut_views(written@).take(j + 1) =~= shortcut_views(written@).take(j as int).push(shortcut_views(written@)[j as int]));
                assert(shortcut_views(written@)[j as int] == (written@[j as int].0@, written@[j as int].1@, written@[j as int].2@));
                proof {
                    lemma_push_contains(shortcut_views(written@).take(j as int), shortcut_views(written@)[j as int], x);
                }
                if !seen && same_shortcut(&written[j], &state.shortcuts[i]) {
                    seen = true;
                }
                j = j + 1;
            }
            assert(shortcut_views(written@).take(written@.len() as int) =~= shortcut_views(written@));
            assert(sv.take(i + 1).drop_last() =~= sv.take(i as int));
            if !seen {
                formatter.append("\n[");
                proof {
                    reveal_strlit("\n[");
                }
                formatter.append(state.shortcuts[i].0.as_str());
                close_link(state.shortcuts[i].1.as_str(), state.shortcuts[i].2.as_str(), formatter, true);
                let t = (state.shortcuts[i].0.clone(), state.shortcuts[i].1.clone(), state.shortcuts[i].2.clone());
                let ghost before = written@;
                written.push(t);
                assert(shortcut_views(written@) =~= shortcut_views(before).push(x));
                assert(sv.take(i + 1) =~= sv.take(i as int).push(x));
                assert forall|y: (Seq<char>, Seq<char>, Seq<char>)| shortcut_views(written@).contains(y) <==> sv.take(i + 1).contains(y) by {
                    lemma_push_contains(shortcut_views(before), x, y);
                    lemma_push_contains(sv.take(i as int), x, y);
                }
            } else {
                assert(sv.take(i + 1) =~= sv.take(i as int).push(x));
                assert forall|y: (Seq<char>, Seq<char>, Seq<char>)| shortcut_views(written@).contains(y) <==> sv.take(i + 1).contains(y) by {
                    lemma_push_contains(sv.take(i as int), x, y);
                }
            }
            i = i + 1;
            assert(formatter@ =~= start + shortcut_lines(sv, i as int));
        }
        state.shortcuts = Vec::new();
        state
    }
}

} // verus!
