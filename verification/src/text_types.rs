//! Styles, styled lines, and the fold that builds a document's lines from
//! its tokens.

use crate::grammar::{lemma_run_until_unique, newlines, run_until, Lexeme};
use crate::segmentation::{same_text, views};
use crate::tokenizer::{token_views, Token};
use vstd::prelude::*;
use vstd::string::*;

verus! {

/// A colour of text or of its background.
#[derive(Clone, Copy, PartialEq, Eq, Debug)]
pub enum Color {
    /// White.
    White,
    /// Red, green and blue.
    Rgb(u8, u8, u8),
}

/// The attributes that text is shown with.
#[derive(Clone, Copy, PartialEq, Eq, Debug)]
pub struct TextStyle {
    /// The colour of the text, where one is set.
    pub foreground: Option<Color>,
    /// The colour behind the text, where one is set.
    pub background: Option<Color>,
    /// Bold.
    pub bold: bool,
    /// Italic.
    pub italic: bool,
    /// Blinking slowly.
    pub slow_blink: bool,
    /// Blinking rapidly.
    pub rapid_blink: bool,
    /// Struck through.
    pub crossed_out: bool,
    /// Not shown, though it takes its room.
    pub hidden: bool,
}

impl TextStyle {
    /// The style with no attribute set.
    pub open spec fn plain() -> TextStyle {
        TextStyle {
            foreground: None,
            background: None,
            bold: false,
            italic: false,
            slow_blink: false,
            rapid_blink: false,
            crossed_out: false,
            hidden: false,
        }
    }
}

impl Default for TextStyle {
    fn default() -> (style: Self)
        ensures
            style == TextStyle::plain(),
    {
        TextStyle {
            foreground: None,
            background: None,
            bold: false,
            italic: false,
            slow_blink: false,
            rapid_blink: false,
            crossed_out: false,
            hidden: false,
        }
    }
}

/// What a style name adds to a style; `None` for a name that is not one of
/// the six known ones. Names are matched exactly.
pub open spec fn styled(base: TextStyle, name: Seq<char>) -> Option<TextStyle> {
    if name == "title"@ {
        Some(TextStyle { bold: true, italic: true, slow_blink: true, ..base })
    } else if name == "warning"@ {
        Some(
            TextStyle {
                foreground: Some(Color::White),
                background: Some(Color::Rgb(255, 100, 0)),
                ..base
            },
        )
    } else if name == "blinking"@ {
        Some(TextStyle { rapid_blink: true, ..base })
    } else if name == "crossed-out"@ {
        Some(TextStyle { crossed_out: true, ..base })
    } else if name == "hidden"@ {
        Some(TextStyle { hidden: true, ..base })
    } else if name == "normal"@ {
        Some(base)
    } else {
        None
    }
}

/// A style name that is not known.
#[derive(PartialEq, Eq, Debug)]
pub struct UnsupportedStyle<'a> {
    /// The name, as the document has it.
    pub name: &'a str,
}

impl<'a> UnsupportedStyle<'a> {
    /// The error in words.
    pub fn message(&self) -> (text: String)
        ensures
            text@ == "Unsupported Text modifier "@ + self.name@,
    {
        let mut text = String::from_str("Unsupported Text modifier ");
        text.append(self.name);
        text
    }
}

/// What ends a line of text: the line feed.
pub open spec fn line_feed() -> Seq<char> {
    seq!['\n']
}

/// The lines of a text: what stands between its line feeds. A text with
/// `n` line feeds has `n + 1` lines, empty ones included.
pub open spec fn split_lines(text: Seq<char>) -> Seq<Seq<char>>
    decreases text.len(),
{
    let n = run_until(text, line_feed());
    if n >= text.len() {
        seq![text]
    } else {
        seq![text.take(n as int)] + split_lines(text.skip(n + 1 as int))
    }
}

/// Cuts `text` at its line feeds.
pub fn lines_of_text<'a>(text: &'a str) -> (lines: Vec<&'a str>)
    ensures
        views(lines@) == split_lines(text@),
{
    let total = text.unicode_len();
    let mut lines: Vec<&'a str> = Vec::new();
    let mut from: usize = 0;
    let mut i: usize = 0;
    assert(views(lines@) =~= Seq::<Seq<char>>::empty());
    assert(text@.skip(0) =~= text@);
    for c in it: text.chars()
        invariant
            i == it.index(),
            it.seq() == text@,
            total == text@.len(),
            from <= i <= total,
            forall|j: int| from <= j < i ==> text@[j] != '\n',
            views(lines@) + split_lines(text@.skip(from as int)) == split_lines(text@),
    {
        if c == '\n' {
            let line = text.substring_char(from, i);
            proof {
                let tail = text@.skip(from as int);
                assert forall|j: int| 0 <= j < i - from implies !line_feed().contains(
                    #[trigger] tail[j],
                ) by {
                    assert(tail[j] == text@[from + j]);
                }
                assert(line_feed().contains(tail[i - from])) by {
                    assert(line_feed()[0] == tail[i - from]);
                }
                lemma_run_until_unique(tail, line_feed(), i - from);
                assert(tail.take(i - from) =~= line@);
                assert(tail.skip(i - from + 1) =~= text@.skip(i + 1));
                assert(views(lines@.push(line)) =~= views(lines@) + seq![line@]);
                assert(views(lines@.push(line)) + split_lines(text@.skip(i + 1)) =~= views(lines@)
                    + split_lines(tail));
            }
            lines.push(line);
            from = i + 1;
        }
        i += 1;
    }
    let line = text.substring_char(from, total);
    proof {
        let tail = text@.skip(from as int);
        assert forall|j: int| 0 <= j < total - from implies !line_feed().contains(
            #[trigger] tail[j],
        ) by {
            assert(tail[j] == text@[from + j]);
        }
        lemma_run_until_unique(tail, line_feed(), total - from);
        assert(tail =~= line@);
        assert(views(lines@.push(line)) =~= views(lines@) + seq![line@]);
    }
    lines.push(line);
    lines
}

/// One line of a document, with the style it is shown in. The text
/// borrows from the document.
#[derive(Clone, Copy, PartialEq, Eq, Debug)]
pub struct StyledLine<'a> {
    /// The line, without a line feed.
    pub text: &'a str,
    /// How it is shown.
    pub style: TextStyle,
}

/// A styled line, as the characters it holds.
pub struct LineView {
    /// The line's characters.
    pub text: Seq<char>,
    /// How it is shown.
    pub style: TextStyle,
}

impl<'a> View for StyledLine<'a> {
    type V = LineView;

    open spec fn view(&self) -> LineView {
        LineView { text: self.text@, style: self.style }
    }
}

/// The lines of a list, each as the characters it holds.
pub open spec fn line_views(lines: Seq<StyledLine<'_>>) -> Seq<LineView> {
    lines.map_values(|line: StyledLine<'_>| line@)
}

/// Each of `texts` as a line in `style`.
pub open spec fn in_style(texts: Seq<Seq<char>>, style: TextStyle) -> Seq<LineView> {
    texts.map_values(|text: Seq<char>| LineView { text, style })
}

/// The lines that a text gives under a style name: one for each of its
/// lines, all in the style that the name stands for. `None` where the name
/// is not known.
pub open spec fn lines_of(style: Seq<char>, text: Seq<char>) -> Option<Seq<LineView>> {
    match styled(TextStyle::plain(), style) {
        Some(resolved) => Some(in_style(split_lines(text), resolved)),
        None => None,
    }
}

/// A text with the name of its style.
#[derive(Clone, Copy, Debug)]
pub struct TextType<'a> {
    style: &'a str,
    text: &'a str,
}

impl<'a> TextType<'a> {
    /// The name of the style.
    pub closed spec fn style_name(&self) -> Seq<char> {
        self.style@
    }

    /// The text.
    pub closed spec fn content(&self) -> Seq<char> {
        self.text@
    }

    /// `text`, to be shown in the style named `style`.
    pub fn new(style: &'a str, text: &'a str) -> (text_type: TextType<'a>)
        ensures
            text_type.style_name() == style@,
            text_type.content() == text@,
    {
        TextType { style, text }
    }

    /// The lines of the text, each in the style that the name stands for.
    /// Fails where the name is not known.
    pub fn to_lines(self) -> (lines: Result<Vec<StyledLine<'a>>, UnsupportedStyle<'a>>)
        ensures
            match lines {
                Ok(built) => lines_of(self.style_name(), self.content()) == Some(
                    line_views(built@),
                ),
                Err(error) => lines_of(self.style_name(), self.content()) is None && error.name@
                    == self.style_name(),
            },
    {
        let style = match Self::return_style(TextStyle::default(), self.style) {
            Ok(style) => style,
            Err(error) => {
                return Err(error);
            },
        };
        let split_lines = lines_of_text(self.text);
        let mut return_lines: Vec<StyledLine<'a>> = Vec::new();
        let mut i: usize = 0;
        while i < split_lines.len()
            invariant
                i <= split_lines.len(),
                return_lines.len() == i,
                forall|j: int|
                    0 <= j < i ==> (#[trigger] return_lines[j])@ == (LineView {
                        text: split_lines[j]@,
                        style,
                    }),
            decreases split_lines.len() - i,
        {
            return_lines.push(StyledLine { text: split_lines[i], style });
            i += 1;
        }
        assert(line_views(return_lines@) =~= in_style(views(split_lines@), style));
        Ok(return_lines)
    }

    /// The style that `modifier` names, on top of `default_style`. Fails
    /// where the name is not known.
    pub fn return_style(default_style: TextStyle, modifier: &'a str) -> (style: Result<
        TextStyle,
        UnsupportedStyle<'a>,
    >)
        ensures
            match style {
                Ok(resolved) => styled(default_style, modifier@) == Some(resolved),
                Err(error) => styled(default_style, modifier@) is None && error.name@
                    == modifier@,
            },
    {
        if same_text(modifier, "title") {
            Ok(TextStyle { bold: true, italic: true, slow_blink: true, ..default_style })
        } else if same_text(modifier, "warning") {
            Ok(
                TextStyle {
                    foreground: Some(Color::White),
                    background: Some(Color::Rgb(255, 100, 0)),
                    ..default_style
                },
            )
        } else if same_text(modifier, "blinking") {
            Ok(TextStyle { rapid_blink: true, ..default_style })
        } else if same_text(modifier, "crossed-out") {
            Ok(TextStyle { crossed_out: true, ..default_style })
        } else if same_text(modifier, "hidden") {
            Ok(TextStyle { hidden: true, ..default_style })
        } else if same_text(modifier, "normal") {
            Ok(default_style)
        } else {
            Err(UnsupportedStyle { name: modifier })
        }
    }
}

/// Where the fold over the tokens stands.
pub struct Scope {
    /// The name of the current style.
    pub style: Seq<char>,
    /// The text of the current scope.
    pub text: Seq<char>,
    /// Whether a style tag has been read whose end has not.
    pub open: bool,
}

/// The fold before the first token: `default_text` is both the style name
/// and the text, and no scope is open.
pub open spec fn initial_scope(default_text: Seq<char>) -> Scope {
    Scope { style: default_text, text: default_text, open: false }
}

/// An empty line in the plain style.
pub open spec fn blank_line() -> LineView {
    LineView { text: Seq::empty(), style: TextStyle::plain() }
}

/// The fold after a token.
///
/// A style tag opens a scope under its name and sets the text back to
/// `default_text`; a text run becomes the scope's text; an end marker
/// closes the scope, and leaves style and text as they are.
pub open spec fn scope_after(scope: Scope, token: Lexeme, default_text: Seq<char>) -> Scope {
    match token {
        Lexeme::Start(name) => Scope { style: name, text: default_text, open: true },
        Lexeme::Text(content) => Scope { text: content, ..scope },
        Lexeme::End => Scope { open: false, ..scope },
        Lexeme::Whitespace(_) => scope,
    }
}

/// The lines that a token adds to the document; `None` where it ends a
/// scope whose style name is not known.
///
/// An end marker adds the lines of the scope's text in the scope's style.
/// A line end outside any open scope adds one blank line. All other
/// whitespace, style tags and text runs add nothing by themselves.
pub open spec fn emitted(scope: Scope, token: Lexeme) -> Option<Seq<LineView>> {
    match token {
        Lexeme::End => lines_of(scope.style, scope.text),
        Lexeme::Whitespace(content) => if !scope.open && newlines().contains(content) {
            Some(seq![blank_line()])
        } else {
            Some(Seq::empty())
        },
        _ => Some(Seq::empty()),
    }
}

/// `lines`, and then what `rest` holds, where it holds lines.
pub open spec fn followed_by(lines: Seq<LineView>, rest: Result<Seq<LineView>, Seq<char>>) -> Result<
    Seq<LineView>,
    Seq<char>,
> {
    match rest {
        Ok(more) => Ok(lines + more),
        Err(name) => Err(name),
    }
}

/// The lines of a document, from its tokens: what each token adds, in
/// order. Fails at the first end marker whose scope has an unknown style
/// name, with that name.
pub open spec fn build(tokens: Seq<Lexeme>, scope: Scope, default_text: Seq<char>) -> Result<
    Seq<LineView>,
    Seq<char>,
>
    decreases tokens.len(),
{
    if tokens.len() == 0 {
        Ok(Seq::empty())
    } else {
        match emitted(scope, tokens[0]) {
            Some(lines) => followed_by(
                lines,
                build(tokens.drop_first(), scope_after(scope, tokens[0], default_text), default_text),
            ),
            None => Err(scope.style),
        }
    }
}

/// Builds the lines of a document from its tokens.
///
/// The text between a style tag and its end marker is shown in the tag's
/// style, one line for each line of the text; whitespace inside a scope is
/// passed over. Outside a scope each line end gives a blank line. Before
/// the first style tag, `default_string` is the style name and the text.
/// Fails at the first end marker whose style name is not known.
pub fn from_tokens<'a>(default_string: &'a str, tokens: &[Token<'a>]) -> (lines: Result<
    Vec<StyledLine<'a>>,
    UnsupportedStyle<'a>,
>)
    ensures
        match lines {
            Ok(built) => build(
                token_views(tokens@),
                initial_scope(default_string@),
                default_string@,
            ) == Ok::<Seq<LineView>, Seq<char>>(line_views(built@)),
            Err(error) => build(
                token_views(tokens@),
                initial_scope(default_string@),
                default_string@,
            ) == Err::<Seq<LineView>, Seq<char>>(error.name@),
        },
{
    let mut text_types: Vec<StyledLine<'a>> = Vec::new();
    let mut current_text_type = TextType { style: default_string, text: default_string };
    let mut in_scope = false;
    let ghost all = token_views(tokens@);
    let ghost goal = build(all, initial_scope(default_string@), default_string@);
    let mut i: usize = 0;
    assert(all.skip(0) =~= all);
    assert(line_views(text_types@) =~= Seq::<LineView>::empty());
    assert(followed_by(Seq::<LineView>::empty(), goal) == goal) by {
        if let Ok(more) = goal {
            assert(Seq::<LineView>::empty() + more =~= more);
        }
    }
    while i < tokens.len()
        invariant
            i <= tokens.len(),
            all == token_views(tokens@),
            goal == build(all, initial_scope(default_string@), default_string@),
            goal == followed_by(
                line_views(text_types@),
                build(
                    all.skip(i as int),
                    Scope {
                        style: current_text_type.style@,
                        text: current_text_type.text@,
                        open: in_scope,
                    },
                    default_string@,
                ),
            ),
        decreases tokens.len() - i,
    {
        let ghost scope = Scope {
            style: current_text_type.style@,
            text: current_text_type.text@,
            open: in_scope,
        };
        let ghost before = line_views(text_types@);
        let ghost added = emitted(scope, all[i as int]);
        let ghost rest = build(
            all.skip(i + 1),
            scope_after(scope, all[i as int], default_string@),
            default_string@,
        );
        proof {
            assert(all.skip(i as int).drop_first() =~= all.skip(i + 1));
            assert(all.skip(i as int)[0] == tokens@[i as int]@);
        }
        match &tokens[i] {
            Token::Start(text_type) => {
                current_text_type.style = text_type;
                current_text_type.text = default_string;
                in_scope = true;
            },
            Token::Text(text) => {
                current_text_type.text = text;
            },
            Token::End => {
                match TextType::new(current_text_type.style, current_text_type.text).to_lines() {
                    Ok(mut more) => {
                        text_types.append(&mut more);
                    },
                    Err(error) => {
                        return Err(error);
                    },
                }
                in_scope = false;
            },
            Token::Whitespace(character) => {
                if !in_scope && (same_text(character, "\r\n") || same_text(character, "\n")) {
                    proof {
                        reveal_strlit("");
                        assert(""@ =~= Seq::<char>::empty());
                        assert(newlines()[0] == "\r\n"@ && newlines()[1] == "\n"@);
                    }
                    text_types.push(StyledLine { text: "", style: TextStyle::default() });
                }
            },
        }
        proof {
            let lines = added->0;
            assert(line_views(text_types@) =~= before + lines);
            if let Ok(more) = rest {
                assert((before + lines) + more =~= before + (lines + more));
            }
        }
        i += 1;
    }
    assert(all.skip(i as int) =~= Seq::<Lexeme>::empty());
    assert(line_views(text_types@) + Seq::<LineView>::empty() =~= line_views(text_types@));
    Ok(text_types)
}

} // verus!
