//! The lexer and the header reader, over a cursor that walks a text one
//! grapheme cluster at a time.
//!
//! Tokens and header values borrow from the document text; nothing is
//! copied. Positions are counted in characters.

use crate::decimal::parse_size;
use crate::grammar::{
    alignment_named, attribute_of, blanks, entries, entry_at, entry_warnings, first_entry,
    first_pair,
    first_token, first_warning, key_end, lemma_entries_unfold, lemma_first_entry_stops,
    lemma_first_token_len,
    lemma_lex_covers_text, lemma_run_until, lemma_run_until_unique, lemma_run_while,
    lemma_run_while_unique, lex, line_len, newlines, prelude, prelude_warnings, run_until,
    run_while, scope_end, spans, warning_of, whitespace, Attribute, Lexeme,
};
use crate::segmentation::{
    grapheme_clusters, lemma_flatten_subrange, lemma_offset_step, offset_of, same_text,
    split_graphemes, tiles, views,
};
use vstd::prelude::*;
use vstd::string::*;

verus! {

/// A cursor over the grapheme clusters of a text.
pub struct StringViewer<'a> {
    string: &'a str,
    graphemes: Vec<&'a str>,
    position: usize,
    index: usize,
}

impl<'a> StringViewer<'a> {
    /// The whole text.
    pub closed spec fn text(&self) -> Seq<char> {
        self.string@
    }

    /// The clusters that the text is cut into.
    pub closed spec fn clusters(&self) -> Seq<Seq<char>> {
        views(self.graphemes@)
    }

    /// How many clusters have been consumed.
    pub closed spec fn position(&self) -> nat {
        self.position as nat
    }

    /// How many characters have been consumed.
    pub closed spec fn offset(&self) -> nat {
        self.index as nat
    }

    /// The clusters tile the text and the cursor stands on a cluster boundary.
    pub open spec fn wf(&self) -> bool {
        &&& tiles(self.clusters(), self.text())
        &&& self.text().len() <= usize::MAX
        &&& self.position() <= self.clusters().len()
        &&& self.offset() == offset_of(self.clusters(), self.position() as int)
    }

    /// The clusters not yet consumed.
    pub open spec fn remaining(&self) -> Seq<Seq<char>> {
        self.clusters().skip(self.position() as int)
    }

    /// `self` is a cursor over the same text as `earlier`, cut the same way.
    pub open spec fn same_document(&self, earlier: &Self) -> bool {
        &&& self.text() == earlier.text()
        &&& self.clusters() == earlier.clusters()
    }

    /// A cursor at the start of `string`, over its extended grapheme clusters.
    pub fn new(string: &'a str) -> (viewer: Self)
        ensures
            viewer.wf(),
            viewer.text() == string@,
            viewer.clusters() == grapheme_clusters(string@),
            viewer.position() == 0,
    {
        let graphemes = split_graphemes(string);
        // Counting the characters once shows that every offset fits a `usize`.
        let _length = string.unicode_len();
        proof {
            assert(views(graphemes@).take(0) =~= Seq::<Seq<char>>::empty());
        }
        StringViewer { string, graphemes, position: 0, index: 0 }
    }

    /// A cursor at the start of `string`, over the given clusters, where
    /// they cut `string` into consecutive non-empty parts; `None` where they
    /// do not.
    pub fn with_clusters(string: &'a str, graphemes: Vec<&'a str>) -> (viewer: Option<Self>)
        ensures
            match viewer {
                Some(made) => {
                    &&& tiles(views(graphemes@), string@)
                    &&& made.wf()
                    &&& made.text() == string@
                    &&& made.clusters() == views(graphemes@)
                    &&& made.position() == 0
                },
                None => !tiles(views(graphemes@), string@),
            },
    {
        let length = string.unicode_len();
        let ghost pieces = views(graphemes@);
        let mut offset: usize = 0;
        let mut i: usize = 0;
        assert(pieces.take(0) =~= Seq::<Seq<char>>::empty());
        while i < graphemes.len()
            invariant
                i <= graphemes.len(),
                pieces == views(graphemes@),
                length == string@.len(),
                offset <= length,
                offset == offset_of(pieces, i as int),
                pieces.take(i as int).flatten() == string@.take(offset as int),
                forall|j: int| 0 <= j < i ==> (#[trigger] pieces[j]).len() > 0,
            decreases graphemes.len() - i,
        {
            let cluster = graphemes[i];
            let width = cluster.unicode_len();
            proof {
                lemma_offset_step(pieces, i as int);
                lemma_flatten_subrange(pieces, i as int, i + 1);
                assert(pieces.subrange(i as int, i + 1) =~= seq![pieces[i as int]]);
                seq![pieces[i as int]].lemma_flatten_singleton();
            }
            if width == 0 || width > length - offset {
                return None;
            }
            if !same_text(string.substring_char(offset, offset + width), cluster) {
                return None;
            }
            proof {
                assert(pieces.take(i + 1) =~= pieces.take(i as int).push(pieces[i as int]));
                pieces.take(i as int).lemma_flatten_push(pieces[i as int]);
                assert(string@.take(offset + width) =~= string@.take(offset as int)
                    + string@.subrange(offset as int, offset + width));
            }
            offset = offset + width;
            i += 1;
        }
        proof {
            assert(pieces.take(i as int) =~= pieces);
        }
        if offset != length {
            return None;
        }
        assert(string@.take(offset as int) =~= string@);
        Some(StringViewer { string, graphemes, position: 0, index: 0 })
    }

    /// The cluster under the cursor, if any is left.
    pub fn peek(&self) -> (head: Option<&'a str>)
        requires
            self.wf(),
        ensures
            match head {
                Some(cluster) => self.remaining().len() > 0 && cluster@ == self.remaining()[0],
                None => self.remaining().len() == 0,
            },
    {
        if self.position < self.graphemes.len() {
            Some(self.graphemes[self.position])
        } else {
            None
        }
    }

    /// Consumes the cluster under the cursor, if any is left.
    pub fn next(&mut self) -> (head: Option<&'a str>)
        requires
            old(self).wf(),
        ensures
            final(self).wf(),
            final(self).same_document(old(self)),
            match head {
                Some(cluster) => {
                    &&& old(self).remaining().len() > 0
                    &&& cluster@ == old(self).remaining()[0]
                    &&& final(self).position() == old(self).position() + 1
                    &&& final(self).offset() == old(self).offset() + cluster@.len()
                },
                None => old(self).remaining().len() == 0 && *final(self) == *old(self),
            },
    {
        if self.position < self.graphemes.len() {
            let cluster = self.graphemes[self.position];
            let width = cluster.unicode_len();
            proof {
                lemma_offset_step(self.clusters(), self.position as int);
                lemma_flatten_subrange(self.clusters(), 0, self.position as int + 1);
            }
            self.position = self.position + 1;
            self.index = self.index + width;
            Some(cluster)
        } else {
            None
        }
    }

    /// The characters of the text from `span.0` up to `span.1`.
    pub fn split_string(&self, span: (usize, usize)) -> (part: &'a str)
        requires
            span.0 <= span.1 <= self.text().len(),
        ensures
            part@ == self.text().subrange(span.0 as int, span.1 as int),
    {
        self.string.substring_char(span.0, span.1)
    }
}

/// One token of the markup, borrowing its content from the text.
#[derive(PartialEq, Debug)]
pub enum Token<'a> {
    /// `!name`: a style tag, with its name.
    Start(&'a str),
    /// `$`: the end of a style scope.
    End,
    /// A run of text.
    Text(&'a str),
    /// One whitespace cluster.
    Whitespace(&'a str),
}

impl<'a> View for Token<'a> {
    type V = Lexeme;

    open spec fn view(&self) -> Lexeme {
        match self {
            Token::Start(name) => Lexeme::Start(name@),
            Token::End => Lexeme::End,
            Token::Text(content) => Lexeme::Text(content@),
            Token::Whitespace(content) => Lexeme::Whitespace(content@),
        }
    }
}

/// The tokens of a list, each as the characters it holds.
pub open spec fn token_views(tokens: Seq<Token<'_>>) -> Seq<Lexeme> {
    tokens.map_values(|token: Token<'_>| token@)
}

/// Where a scan stopped, and what it gathered on the way.
pub struct ExtractionResult<'a, T> {
    /// The cursor, after what was read.
    pub string_viewer: StringViewer<'a>,
    /// What was read, in order.
    pub output_values: Vec<T>,
}

/// Whether `cluster` is one of `set`.
fn is_one_of(cluster: &str, set: &[&str]) -> (found: bool)
    ensures
        found == views(set@).contains(cluster@),
{
    let mut i: usize = 0;
    while i < set.len()
        invariant
            i <= set.len(),
            forall|j: int| 0 <= j < i ==> views(set@)[j] != cluster@,
        decreases set.len() - i,
    {
        if same_text(cluster, set[i]) {
            assert(views(set@)[i as int] == cluster@);
            return true;
        }
        i += 1;
    }
    false
}

/// Moves the cursor up to the first cluster that is one of `consume_to`, or
/// to the end, and returns the character span it moved over.
fn consume_to_char(chars: &mut StringViewer, consume_to: &[&str]) -> (span: (usize, usize))
    requires
        old(chars).wf(),
    ensures
        final(chars).wf(),
        final(chars).same_document(old(chars)),
        final(chars).position() == old(chars).position() + run_until(
            old(chars).remaining(),
            views(consume_to@),
        ),
        span.0 == old(chars).offset(),
        span.1 == final(chars).offset(),
{
    let begin_index = chars.index;
    let ghost start = chars.position();
    let ghost ahead = chars.remaining();
    let ghost stops = views(consume_to@);
    loop
        invariant
            chars.wf(),
            chars.same_document(old(chars)),
            stops == views(consume_to@),
            ahead == old(chars).remaining(),
            start == old(chars).position(),
            start <= chars.position(),
            forall|i: int| 0 <= i < chars.position() - start ==> !stops.contains(#[trigger] ahead[i]),
        ensures
            chars.position() - start < ahead.len() ==> stops.contains(
                ahead[chars.position() - start],
            ),
        decreases chars.clusters().len() - chars.position(),
    {
        match chars.peek() {
            None => {
                break ;
            },
            Some(cluster) => {
                if is_one_of(cluster, consume_to) {
                    break ;
                }
            },
        }
        chars.next();
    }
    proof {
        lemma_run_until_unique(ahead, stops, chars.position() - start);
    }
    (begin_index, chars.index)
}

/// Moves the cursor over the leading clusters that are all in
/// `keep_set`, and returns the character span it moved over.
fn consume_all(chars: &mut StringViewer, keep_set: &[&str]) -> (span: (usize, usize))
    requires
        old(chars).wf(),
    ensures
        final(chars).wf(),
        final(chars).same_document(old(chars)),
        final(chars).position() == old(chars).position() + run_while(
            old(chars).remaining(),
            views(keep_set@),
        ),
        span.0 == old(chars).offset(),
        span.1 == final(chars).offset(),
{
    let begin_index = chars.index;
    let ghost start = chars.position();
    let ghost ahead = chars.remaining();
    let ghost keep = views(keep_set@);
    loop
        invariant
            chars.wf(),
            chars.same_document(old(chars)),
            keep == views(keep_set@),
            ahead == old(chars).remaining(),
            start == old(chars).position(),
            start <= chars.position(),
            forall|i: int| 0 <= i < chars.position() - start ==> keep.contains(#[trigger] ahead[i]),
        ensures
            chars.position() - start < ahead.len() ==> !keep.contains(
                ahead[chars.position() - start],
            ),
        decreases chars.clusters().len() - chars.position(),
    {
        match chars.peek() {
            None => {
                break ;
            },
            Some(cluster) => {
                if !is_one_of(cluster, keep_set) {
                    break ;
                }
            },
        }
        chars.next();
    }
    proof {
        lemma_run_while_unique(ahead, keep, chars.position() - start);
    }
    (begin_index, chars.index)
}

/// Reads the token under the cursor, if any text is left.
fn next_token<'a>(chars: &mut StringViewer<'a>) -> (token: Option<Token<'a>>)
    requires
        old(chars).wf(),
    ensures
        final(chars).wf(),
        final(chars).same_document(old(chars)),
        match token {
            Some(found) => {
                &&& old(chars).remaining().len() > 0
                &&& found@ == first_token(old(chars).remaining()).0
                &&& final(chars).position() == old(chars).position() + first_token(
                    old(chars).remaining(),
                ).1
            },
            None => old(chars).remaining().len() == 0 && final(chars).position() == old(
                chars,
            ).position(),
        },
{
    let head = match chars.peek() {
        Some(cluster) => cluster,
        None => {
            return None;
        },
    };
    let ghost start = chars.position() as int;
    let ghost ahead = chars.remaining();
    let spaces: [&str; 3] = [" ", "\n", "\r\n"];
    assert(views(spaces@) =~= whitespace());
    if same_text(head, "!") {
        chars.next();
        assert(chars.remaining() =~= ahead.skip(1));
        let span = consume_to_char(chars, &spaces);
        proof {
            let end = chars.position() as int;
            lemma_flatten_subrange(chars.clusters(), start + 1, end);
            assert(chars.clusters().subrange(start + 1, end) =~= ahead.subrange(
                1,
                end - start,
            ));
        }
        let name = chars.split_string(span);
        Some(Token::Start(name))
    } else if same_text(head, "$") {
        chars.next();
        Some(Token::End)
    } else if is_one_of(head, &spaces) {
        chars.next();
        Some(Token::Whitespace(head))
    } else {
        let closing: [&str; 1] = ["$"];
        assert(views(closing@) =~= scope_end());
        let span = consume_to_char(chars, &closing);
        proof {
            let end = chars.position() as int;
            lemma_flatten_subrange(chars.clusters(), start, end);
            assert(chars.clusters().subrange(start, end) =~= ahead.take(end - start));
        }
        let content = chars.split_string(span);
        Some(Token::Text(content))
    }
}

/// Cuts the rest of the text into tokens.
///
/// Every cluster from the cursor on is covered by exactly one token, in
/// order, and the cursor ends at the end of the text.
pub fn tokenize_string<'a>(string_viewer: StringViewer<'a>) -> (result: ExtractionResult<
    'a,
    Token<'a>,
>)
    requires
        string_viewer.wf(),
    ensures
        result.string_viewer.wf(),
        result.string_viewer.same_document(&string_viewer),
        result.string_viewer.remaining().len() == 0,
        token_views(result.output_values@) == lex(string_viewer.remaining()),
        spans(token_views(result.output_values@)) == string_viewer.remaining().flatten(),
        string_viewer.position() == 0 ==> spans(token_views(result.output_values@))
            == string_viewer.text(),
{
    let mut string_viewer = string_viewer;
    let ghost ahead = string_viewer.remaining();
    let ghost start = string_viewer;
    let mut tokens: Vec<Token<'a>> = Vec::new();
    assert(token_views(tokens@) =~= Seq::<Lexeme>::empty());
    loop
        invariant
            string_viewer.wf(),
            string_viewer.same_document(&start),
            token_views(tokens@) + lex(string_viewer.remaining()) == lex(ahead),
        ensures
            string_viewer.remaining().len() == 0,
        decreases string_viewer.remaining().len(),
    {
        let ghost before = string_viewer.remaining();
        let ghost read = tokens@;
        match next_token(&mut string_viewer) {
            Some(token) => {
                proof {
                    lemma_first_token_len(before);
                    assert(string_viewer.remaining() =~= before.skip(
                        first_token(before).1 as int,
                    ));
                    assert(token_views(read.push(token)) =~= token_views(read) + seq![token@]);
                }
                tokens.push(token);
            },
            None => {
                break ;
            },
        }
    }
    proof {
        assert(token_views(tokens@) =~= lex(ahead));
        lemma_lex_covers_text(ahead);
        if start.position() == 0 {
            assert(ahead =~= start.clusters());
        }
    }
    ExtractionResult { string_viewer, output_values: tokens }
}

/// Cuts a whole text into tokens, over its extended grapheme clusters.
///
/// Nothing is lost: the spans of the tokens, put together in order, are
/// the text.
pub fn tokenize<'a>(text: &'a str) -> (tokens: Vec<Token<'a>>)
    ensures
        token_views(tokens@) == lex(grapheme_clusters(text@)),
        spans(token_views(tokens@)) == text@,
{
    let string_viewer = StringViewer::new(text);
    assert(string_viewer.remaining() =~= string_viewer.clusters());
    tokenize_string(string_viewer).output_values
}

/// How lines are aligned.
#[derive(Clone, Copy, PartialEq, Eq, Debug)]
pub enum Alignment {
    /// Against the left edge.
    Left,
    /// Around the middle.
    Center,
    /// Against the right edge.
    Right,
}

impl Alignment {
    /// The alignment that `value` names: `left`, `center` or `right`.
    /// `None` for any other value.
    pub fn from_name(value: &str) -> (alignment: Option<Alignment>)
        ensures
            alignment == alignment_named(value@),
    {
        if same_text(value, "left") {
            Some(Alignment::Left)
        } else if same_text(value, "center") {
            Some(Alignment::Center)
        } else if same_text(value, "right") {
            Some(Alignment::Right)
        } else {
            None
        }
    }
}

/// A `text_alignment` value that names no alignment. The value borrows
/// from the text.
#[derive(Clone, Copy, PartialEq, Eq, Debug)]
pub struct InvalidAlignment<'a> {
    /// The value, as the document has it.
    pub value: &'a str,
}

impl<'a> InvalidAlignment<'a> {
    /// The warning in words.
    pub fn message(&self) -> (text: String)
        ensures
            text@ == "Invalid value for alignment"@,
    {
        String::from_str("Invalid value for alignment")
    }
}

/// The values that a list of warnings holds.
pub open spec fn warning_views(warnings: Seq<InvalidAlignment<'_>>) -> Seq<Seq<char>> {
    warnings.map_values(|warning: InvalidAlignment<'_>| warning.value@)
}

/// A display attribute from a document's header. A title borrows from the
/// text.
#[derive(PartialEq, Debug)]
pub enum DisplayAttributes<'a> {
    /// The document's title, as written.
    Title(&'a str),
    /// The size of the text.
    TextSize(usize),
    /// How lines are aligned.
    Alignment(Alignment),
}

impl<'a> View for DisplayAttributes<'a> {
    type V = Attribute;

    open spec fn view(&self) -> Attribute {
        match self {
            DisplayAttributes::Title(title) => Attribute::Title(title@),
            DisplayAttributes::TextSize(size) => Attribute::TextSize(*size),
            DisplayAttributes::Alignment(alignment) => Attribute::Alignment(*alignment),
        }
    }
}

/// The attributes of a list, each as the characters it holds.
pub open spec fn attribute_views(attributes: Seq<DisplayAttributes<'_>>) -> Seq<Attribute> {
    attributes.map_values(|attribute: DisplayAttributes<'_>| attribute@)
}

impl<'a> DisplayAttributes<'a> {
    /// The attribute that a `key: value` pair gives, if the key is known and
    /// the value fits it.
    pub fn parse(key: &str, value: &'a str) -> (attribute: Option<Self>)
        ensures
            match attribute {
                Some(found) => attribute_of(key@, value@) == Some(found@),
                None => attribute_of(key@, value@) is None,
            },
    {
        if same_text(key, "text_size") {
            match parse_size(value) {
                Some(size) => Some(DisplayAttributes::TextSize(size)),
                None => None,
            }
        } else if same_text(key, "text_alignment") {
            let alignment = match Alignment::from_name(value) {
                Some(named) => named,
                None => Alignment::Left,
            };
            Some(DisplayAttributes::Alignment(alignment))
        } else if same_text(key, "title") {
            Some(DisplayAttributes::Title(value))
        } else {
            None
        }
    }

    /// What there is to warn of in a `key: value` pair: the value of a
    /// `text_alignment` that names no alignment, and so stands for `left`.
    pub fn warning(key: &str, value: &'a str) -> (warning: Option<InvalidAlignment<'a>>)
        ensures
            match warning {
                Some(found) => warning_of(key@, value@) == Some(found.value@),
                None => warning_of(key@, value@) is None,
            },
    {
        if same_text(key, "text_alignment") && Alignment::from_name(value).is_none() {
            Some(InvalidAlignment { value })
        } else {
            None
        }
    }
}

/// Reads the entry that starts under the cursor and moves past it: its
/// key and value, where a colon stands on its line.
fn read_entry<'a>(chars: &mut StringViewer<'a>) -> (pair: Option<(&'a str, &'a str)>)
    requires
        old(chars).wf(),
    ensures
        final(chars).wf(),
        final(chars).same_document(old(chars)),
        final(chars).position() == old(chars).position() + entry_at(old(chars).remaining()).1,
        match pair {
            Some((key, value)) => entry_at(old(chars).remaining()).0 == Some((key@, value@)),
            None => entry_at(old(chars).remaining()).0 is None,
        },
{
    let ghost start = chars.position() as int;
    let ghost ahead = chars.remaining();
    let key_stops: [&str; 3] = [":", "\n", "\r\n"];
    assert(views(key_stops@) =~= key_end());
    let name_idx = consume_to_char(chars, &key_stops);
    let ghost key_to = chars.position() as int;
    proof {
        lemma_run_until(ahead, key_end());
    }
    let at_colon = match chars.peek() {
        Some(cluster) => same_text(cluster, ":"),
        None => false,
    };
    if !at_colon {
        return None;
    }
    proof {
        lemma_flatten_subrange(chars.clusters(), start, key_to);
        assert(chars.clusters().subrange(start, key_to) =~= ahead.take(key_to - start));
    }
    let name = chars.split_string(name_idx);
    chars.next();
    assert(chars.remaining() =~= ahead.skip(key_to - start + 1));
    let blank: [&str; 1] = [" "];
    assert(views(blank@) =~= blanks());
    consume_all(chars, &blank);
    let ghost value_from = chars.position() as int;
    proof {
        lemma_run_while(ahead.skip(key_to - start + 1), blanks());
        assert(chars.remaining() =~= ahead.skip(value_from - start));
    }
    let value_stops: [&str; 3] = [" ", "\n", "\r\n"];
    assert(views(value_stops@) =~= whitespace());
    let value_idx = consume_to_char(chars, &value_stops);
    proof {
        let value_to = chars.position() as int;
        lemma_run_until(ahead.skip(value_from - start), whitespace());
        lemma_flatten_subrange(chars.clusters(), value_from, value_to);
        assert(chars.clusters().subrange(value_from, value_to) =~= ahead.subrange(
            value_from - start,
            value_to - start,
        ));
    }
    let value = chars.split_string(value_idx);
    Some((name, value))
}

/// Reads the next entry of a header and moves past it.
///
/// Whitespace before the entry is passed over. Where the closing `-` or the
/// end of the text comes next, nothing else is consumed and there is no
/// attribute. An entry whose `text_alignment` names no alignment gives
/// `left`, and its value is added to `warnings`.
pub fn extract_attribute<'a>(
    chars: &mut StringViewer<'a>,
    warnings: &mut Vec<InvalidAlignment<'a>>,
) -> (attribute: Option<DisplayAttributes<'a>>)
    requires
        old(chars).wf(),
    ensures
        final(chars).wf(),
        final(chars).same_document(old(chars)),
        final(chars).position() == old(chars).position() + first_entry(old(chars).remaining()).1,
        match attribute {
            Some(found) => first_entry(old(chars).remaining()).0 == Some(found@),
            None => first_entry(old(chars).remaining()).0 is None,
        },
        warning_views(final(warnings)@) == warning_views(old(warnings)@) + (match first_warning(
            old(chars).remaining(),
        ) {
            Some(found) => seq![found],
            None => Seq::empty(),
        }),
        old(chars).remaining().len() == 0 || old(chars).remaining()[0] == "-"@ ==> {
            &&& attribute is None
            &&& final(chars).position() == old(chars).position()
            &&& warning_views(final(warnings)@) == warning_views(old(warnings)@)
        },
{
    let ghost before = chars.remaining();
    let ghost noted = warning_views(warnings@);
    proof {
        reveal(first_pair);
        if before.len() == 0 || before[0] == "-"@ {
            lemma_first_entry_stops(before);
        }
    }
    proof {
        assert(noted + Seq::<Seq<char>>::empty() =~= noted);
    }
    let spaces: [&str; 3] = [" ", "\n", "\r\n"];
    assert(views(spaces@) =~= whitespace());
    consume_all(chars, &spaces);
    assert(chars.remaining() =~= before.skip(run_while(before, whitespace()) as int));
    let starts = match chars.peek() {
        Some(cluster) => !same_text(cluster, "-"),
        None => false,
    };
    if !starts {
        return None;
    }
    match read_entry(chars) {
        Some((name, value)) => {
            match DisplayAttributes::warning(name, value) {
                Some(warning) => {
                    proof {
                        assert(warning_views(warnings@.push(warning)) =~= noted
                            + seq![warning.value@]);
                    }
                    warnings.push(warning);
                },
                None => {},
            }
            DisplayAttributes::parse(name, value)
        },
        None => None,
    }
}

/// Moves the cursor past the rest of the line, its line end included.
fn skip_line(chars: &mut StringViewer)
    requires
        old(chars).wf(),
    ensures
        final(chars).wf(),
        final(chars).same_document(old(chars)),
        final(chars).position() == old(chars).position() + line_len(old(chars).remaining()),
{
    let line_ends: [&str; 2] = ["\r\n", "\n"];
    assert(views(line_ends@) =~= newlines());
    proof {
        lemma_run_until(chars.remaining(), newlines());
    }
    consume_to_char(chars, &line_ends);
    chars.next();
}

/// What reading a header gives.
pub struct Prelude<'a> {
    /// The attributes, in order, with the cursor on the first cluster of
    /// the body.
    pub extraction: ExtractionResult<'a, DisplayAttributes<'a>>,
    /// What there is to warn of, in order: the `text_alignment` values that
    /// name no alignment.
    pub warnings: Vec<InvalidAlignment<'a>>,
}

/// Reads what comes next in a header: an entry, or the closing line, or
/// the end of the text. Says whether it was an entry, so that more may
/// follow.
fn read_next<'a>(
    chars: &mut StringViewer<'a>,
    display_attributes: &mut Vec<DisplayAttributes<'a>>,
    warnings: &mut Vec<InvalidAlignment<'a>>,
) -> (more: bool)
    requires
        old(chars).wf(),
    ensures
        final(chars).wf(),
        final(chars).same_document(old(chars)),
        more ==> {
            &&& final(chars).remaining().len() < old(chars).remaining().len()
            &&& final(chars).position() + entries(final(chars).remaining()).1 == old(
                chars,
            ).position() + entries(old(chars).remaining()).1
            &&& attribute_views(final(display_attributes)@) + entries(final(chars).remaining()).0
                == attribute_views(old(display_attributes)@) + entries(old(chars).remaining()).0
            &&& warning_views(final(warnings)@) + entry_warnings(final(chars).remaining())
                == warning_views(old(warnings)@) + entry_warnings(old(chars).remaining())
        },
        !more ==> {
            &&& final(chars).position() == old(chars).position() + entries(
                old(chars).remaining(),
            ).1
            &&& attribute_views(final(display_attributes)@) == attribute_views(
                old(display_attributes)@,
            ) + entries(old(chars).remaining()).0
            &&& warning_views(final(warnings)@) == warning_views(old(warnings)@)
                + entry_warnings(old(chars).remaining())
        },
{
    let ghost before = chars.remaining();
    let ghost read = attribute_views(display_attributes@);
    let ghost noted = warning_views(warnings@);
    let spaces: [&str; 3] = [" ", "\n", "\r\n"];
    assert(views(spaces@) =~= whitespace());
    consume_all(chars, &spaces);
    let ghost rest = chars.remaining();
    proof {
        lemma_entries_unfold(before);
        assert(rest =~= before.skip(run_while(before, whitespace()) as int));
        assert(read + Seq::<Attribute>::empty() =~= read);
        assert(noted + Seq::<Seq<char>>::empty() =~= noted);
    }
    let closes = match chars.peek() {
        Some(cluster) => same_text(cluster, "-"),
        None => {
            return false;
        },
    };
    if closes {
        skip_line(chars);
        return false;
    }
    let ghost tail = rest.skip(first_entry(rest).1 as int);
    let ghost more = entries(tail).0;
    let ghost later = entry_warnings(tail);
    match extract_attribute(chars, warnings) {
        Some(attribute) => {
            proof {
                assert(attribute_views(display_attributes@.push(attribute)) =~= read
                    + seq![attribute@]);
                assert((read + seq![attribute@]) + more =~= read + (seq![attribute@] + more));
            }
            display_attributes.push(attribute);
        },
        None => {},
    }
    proof {
        assert(chars.remaining() =~= tail);
        match first_warning(rest) {
            Some(found) => {
                assert((noted + seq![found]) + later =~= noted + (seq![found] + later));
            },
            None => {},
        }
    }
    true
}

/// Reads the header that starts under the cursor, if one does, and leaves
/// the cursor on the first cluster of the body.
///
/// A header starts with `-`; the rest of that line is passed over. Each
/// entry is a key, a colon and a value. Entries with an unknown key, with
/// no colon on their line, or with a `text_size` that is no number, are
/// passed over. A `text_alignment` that names no alignment stands for
/// `left`, and its value is handed back as a warning. A line that starts
/// with `-` closes the header.
pub fn read_prelude<'a>(string_viewer: StringViewer<'a>) -> (result: Prelude<'a>)
    requires
        string_viewer.wf(),
    ensures
        result.extraction.string_viewer.wf(),
        result.extraction.string_viewer.same_document(&string_viewer),
        result.extraction.string_viewer.position() == string_viewer.position() + prelude(
            string_viewer.remaining(),
        ).1,
        attribute_views(result.extraction.output_values@) == prelude(
            string_viewer.remaining(),
        ).0,
        warning_views(result.warnings@) == prelude_warnings(string_viewer.remaining()),
{
    let mut string_viewer = string_viewer;
    let ghost start = string_viewer;
    let mut display_attributes: Vec<DisplayAttributes<'a>> = Vec::new();
    let mut warnings: Vec<InvalidAlignment<'a>> = Vec::new();
    assert(attribute_views(display_attributes@) =~= Seq::<Attribute>::empty());
    assert(warning_views(warnings@) =~= Seq::<Seq<char>>::empty());
    let opens = match string_viewer.peek() {
        Some(cluster) => same_text(cluster, "-"),
        None => false,
    };
    if !opens {
        return Prelude {
            extraction: ExtractionResult { string_viewer, output_values: display_attributes },
            warnings,
        };
    }
    skip_line(&mut string_viewer);
    let ghost body = string_viewer.remaining();
    let ghost base = string_viewer.position();
    proof {
        assert(body =~= start.remaining().skip(line_len(start.remaining()) as int));
        assert(Seq::<Attribute>::empty() + entries(body).0 =~= entries(body).0);
        assert(Seq::<Seq<char>>::empty() + entry_warnings(body) =~= entry_warnings(body));
    }
    loop
        invariant_except_break
            attribute_views(display_attributes@) + entries(string_viewer.remaining()).0
                == entries(body).0,
            warning_views(warnings@) + entry_warnings(string_viewer.remaining())
                == entry_warnings(body),
            string_viewer.position() + entries(string_viewer.remaining()).1 == base + entries(
                body,
            ).1,
        invariant
            string_viewer.wf(),
            string_viewer.same_document(&start),
        ensures
            attribute_views(display_attributes@) == entries(body).0,
            warning_views(warnings@) == entry_warnings(body),
            string_viewer.position() == base + entries(body).1,
        decreases string_viewer.remaining().len(),
    {
        if !read_next(&mut string_viewer, &mut display_attributes, &mut warnings) {
            break ;
        }
    }
    Prelude {
        extraction: ExtractionResult { string_viewer, output_values: display_attributes },
        warnings,
    }
}

/// Reads the header of a document. The cursor of the result stands on the
/// first cluster of the body.
pub fn extract_prelude<'a>(string: &'a str) -> (result: ExtractionResult<
    'a,
    DisplayAttributes<'a>,
>)
    ensures
        result.string_viewer.wf(),
        result.string_viewer.text() == string@,
        result.string_viewer.clusters() == grapheme_clusters(string@),
        result.string_viewer.position() == prelude(grapheme_clusters(string@)).1,
        attribute_views(result.output_values@) == prelude(grapheme_clusters(string@)).0,
{
    let string_viewer = StringViewer::new(string);
    assert(string_viewer.remaining() =~= string_viewer.clusters());
    read_prelude(string_viewer).extraction
}

} // verus!
