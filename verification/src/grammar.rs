//! The markup language as mathematics: how a sequence of grapheme clusters
//! is cut into tokens, and how a document's header is read.
//!
//! Nothing here runs. A cluster is a `Seq<char>`; a text is the sequence of
//! its clusters. The executable lexer and header reader are proved against
//! these definitions.

use crate::decimal::size_value;
use crate::segmentation::tiles;
use crate::tokenizer::Alignment;
use vstd::prelude::*;
use vstd::seq_lib::lemma_flatten_concat;

verus! {

/// The whitespace clusters: a space, a line feed, or a carriage return with
/// its line feed. A lone carriage return is not whitespace.
pub open spec fn whitespace() -> Seq<Seq<char>> {
    seq![" "@, "\n"@, "\r\n"@]
}

/// The clusters that end a line.
pub open spec fn newlines() -> Seq<Seq<char>> {
    seq!["\r\n"@, "\n"@]
}

/// The single space.
pub open spec fn blanks() -> Seq<Seq<char>> {
    seq![" "@]
}

/// The cluster that closes a style scope.
pub open spec fn scope_end() -> Seq<Seq<char>> {
    seq!["$"@]
}

/// What ends a header key: the colon, or the end of the line.
pub open spec fn key_end() -> Seq<Seq<char>> {
    seq![":"@, "\n"@, "\r\n"@]
}

/// How many items stand before the first one that is in `stops`; all of
/// them if none is.
pub open spec fn run_until<A>(items: Seq<A>, stops: Seq<A>) -> nat
    decreases items.len(),
{
    if items.len() == 0 || stops.contains(items[0]) {
        0
    } else {
        1 + run_until(items.drop_first(), stops)
    }
}

/// How many leading items are all in `keep`.
pub open spec fn run_while<A>(items: Seq<A>, keep: Seq<A>) -> nat
    decreases items.len(),
{
    if items.len() == 0 || !keep.contains(items[0]) {
        0
    } else {
        1 + run_while(items.drop_first(), keep)
    }
}

/// `run_until` finds the first stop: nothing before it is a stop, and it
/// ends on a stop or at the end.
pub proof fn lemma_run_until<A>(items: Seq<A>, stops: Seq<A>)
    ensures
        run_until(items, stops) <= items.len(),
        forall|i: int| 0 <= i < run_until(items, stops) ==> !stops.contains(#[trigger] items[i]),
        run_until(items, stops) < items.len() ==> stops.contains(
            items[run_until(items, stops) as int],
        ),
    decreases items.len(),
{
    if items.len() != 0 && !stops.contains(items[0]) {
        let rest = items.drop_first();
        lemma_run_until(rest, stops);
        assert forall|i: int| 0 <= i < run_until(items, stops) implies !stops.contains(
            #[trigger] items[i],
        ) by {
            if i > 0 {
                assert(items[i] == rest[i - 1]);
            }
        }
    }
}

/// `run_while` finds the first item outside `keep`.
pub proof fn lemma_run_while<A>(items: Seq<A>, keep: Seq<A>)
    ensures
        run_while(items, keep) <= items.len(),
        forall|i: int| 0 <= i < run_while(items, keep) ==> keep.contains(#[trigger] items[i]),
        run_while(items, keep) < items.len() ==> !keep.contains(
            items[run_while(items, keep) as int],
        ),
    decreases items.len(),
{
    if items.len() != 0 && keep.contains(items[0]) {
        let rest = items.drop_first();
        lemma_run_while(rest, keep);
        assert forall|i: int| 0 <= i < run_while(items, keep) implies keep.contains(
            #[trigger] items[i],
        ) by {
            if i > 0 {
                assert(items[i] == rest[i - 1]);
            }
        }
    }
}

/// A count that has no stop before it and ends on a stop, or at the end, is
/// the one `run_until` gives.
pub proof fn lemma_run_until_unique<A>(items: Seq<A>, stops: Seq<A>, n: int)
    requires
        0 <= n <= items.len(),
        forall|i: int| 0 <= i < n ==> !stops.contains(#[trigger] items[i]),
        n < items.len() ==> stops.contains(items[n]),
    ensures
        run_until(items, stops) == n,
    decreases items.len(),
{
    if n > 0 {
        let rest = items.drop_first();
        assert(!stops.contains(items[0]));
        assert forall|i: int| 0 <= i < n - 1 implies !stops.contains(#[trigger] rest[i]) by {
            assert(rest[i] == items[i + 1]);
        }
        lemma_run_until_unique(rest, stops, n - 1);
    }
}

/// A count of items that are all in `keep`, ending before one that is
/// not, or at the end, is the one `run_while` gives.
pub proof fn lemma_run_while_unique<A>(items: Seq<A>, keep: Seq<A>, n: int)
    requires
        0 <= n <= items.len(),
        forall|i: int| 0 <= i < n ==> keep.contains(#[trigger] items[i]),
        n < items.len() ==> !keep.contains(items[n]),
    ensures
        run_while(items, keep) == n,
    decreases items.len(),
{
    if n > 0 {
        let rest = items.drop_first();
        assert(keep.contains(items[0]));
        assert forall|i: int| 0 <= i < n - 1 implies keep.contains(#[trigger] rest[i]) by {
            assert(rest[i] == items[i + 1]);
        }
        lemma_run_while_unique(rest, keep, n - 1);
    }
}

/// A token, as the characters it holds.
pub enum Lexeme {
    /// `!name`: a style tag, with its name.
    Start(Seq<char>),
    /// `$`: the end of a style scope.
    End,
    /// A run of text.
    Text(Seq<char>),
    /// One whitespace cluster.
    Whitespace(Seq<char>),
}

/// The token at the head of a non-empty text, and how many clusters it
/// covers.
///
/// A `!` opens a style tag whose name runs up to the next whitespace
/// cluster; a `$` is an end marker; a whitespace cluster is a token by
/// itself; anything else starts a text run that goes on, whitespace
/// included, up to the next `$`.
pub open spec fn first_token(clusters: Seq<Seq<char>>) -> (Lexeme, nat)
    recommends
        clusters.len() > 0,
{
    if clusters[0] == "!"@ {
        let n = run_until(clusters.skip(1), whitespace());
        (Lexeme::Start(clusters.subrange(1, 1 + n as int).flatten()), 1 + n)
    } else if clusters[0] == "$"@ {
        (Lexeme::End, 1)
    } else if whitespace().contains(clusters[0]) {
        (Lexeme::Whitespace(clusters[0]), 1)
    } else {
        let n = run_until(clusters, scope_end());
        (Lexeme::Text(clusters.take(n as int).flatten()), n)
    }
}

/// A token covers at least one cluster and no more than there are.
pub proof fn lemma_first_token_len(clusters: Seq<Seq<char>>)
    requires
        clusters.len() > 0,
    ensures
        1 <= first_token(clusters).1 <= clusters.len(),
{
    lemma_run_until(clusters.skip(1), whitespace());
    lemma_run_until(clusters, scope_end());
    if clusters[0] != "$"@ {
        assert(!scope_end().contains(clusters[0]));
    }
}

/// The tokens of a text.
pub open spec fn lex(clusters: Seq<Seq<char>>) -> Seq<Lexeme>
    decreases clusters.len(),
{
    if clusters.len() == 0 {
        Seq::empty()
    } else {
        proof {
            lemma_first_token_len(clusters);
        }
        let (token, n) = first_token(clusters);
        seq![token] + lex(clusters.skip(n as int))
    }
}

/// The characters of the text that a token stands for.
pub open spec fn span(token: Lexeme) -> Seq<char> {
    match token {
        Lexeme::Start(name) => "!"@ + name,
        Lexeme::End => "$"@,
        Lexeme::Text(content) => content,
        Lexeme::Whitespace(content) => content,
    }
}

/// The spans of a token sequence, one after another.
pub open spec fn spans(tokens: Seq<Lexeme>) -> Seq<char> {
    tokens.map_values(|token: Lexeme| span(token)).flatten()
}

/// The span of the first token is the clusters that it covers.
pub proof fn lemma_first_token_span(clusters: Seq<Seq<char>>)
    requires
        clusters.len() > 0,
    ensures
        span(first_token(clusters).0) == clusters.take(first_token(clusters).1 as int).flatten(),
{
    broadcast use Seq::lemma_flatten_singleton;

    lemma_first_token_len(clusters);
    let n = first_token(clusters).1 as int;
    let head = seq![clusters[0]];
    assert(head.flatten() == clusters[0]);
    if clusters[0] == "!"@ {
        assert(clusters.take(n) =~= head + clusters.subrange(1, n));
        lemma_flatten_concat(head, clusters.subrange(1, n));
    } else if clusters[0] == "$"@ || whitespace().contains(clusters[0]) {
        assert(clusters.take(n) =~= head);
    }
}

/// Lexing loses nothing: the spans of the tokens of a text, put together
/// in order, are the text.
pub proof fn lemma_lex_covers_text(clusters: Seq<Seq<char>>)
    ensures
        spans(lex(clusters)) == clusters.flatten(),
    decreases clusters.len(),
{
    let by_span = |token: Lexeme| span(token);
    if clusters.len() == 0 {
        assert(lex(clusters).map_values(by_span) =~= Seq::<Seq<char>>::empty());
    } else {
        lemma_first_token_len(clusters);
        lemma_first_token_span(clusters);
        let (token, n) = first_token(clusters);
        let rest = clusters.skip(n as int);
        lemma_lex_covers_text(rest);
        assert(lex(clusters).map_values(by_span) =~= seq![span(token)] + lex(rest).map_values(
            by_span,
        ));
        lemma_flatten_concat(seq![span(token)], lex(rest).map_values(by_span));
        seq![span(token)].lemma_flatten_singleton();
        assert(clusters =~= clusters.take(n as int) + rest);
        lemma_flatten_concat(clusters.take(n as int), rest);
    }
}

/// Where clusters tile a text, the spans of their tokens, put together in
/// order, are that text.
pub proof fn lemma_lex_rebuilds_text(clusters: Seq<Seq<char>>, text: Seq<char>)
    requires
        tiles(clusters, text),
    ensures
        spans(lex(clusters)) == text,
{
    lemma_lex_covers_text(clusters);
}

/// A display attribute of the header, as the characters it holds.
pub enum Attribute {
    /// `title`: the document's title, as written.
    Title(Seq<char>),
    /// `text_size`: the size of the text.
    TextSize(usize),
    /// `text_alignment`: how lines are aligned.
    Alignment(Alignment),
}

/// The alignment that a header value names: `left`, `center` or `right`.
/// Any other value names none.
pub open spec fn alignment_named(value: Seq<char>) -> Option<Alignment> {
    if value == "left"@ {
        Some(Alignment::Left)
    } else if value == "center"@ {
        Some(Alignment::Center)
    } else if value == "right"@ {
        Some(Alignment::Right)
    } else {
        None
    }
}

/// The alignment that a header value stands for: the one it names, and
/// `left` where it names none.
pub open spec fn alignment_of(value: Seq<char>) -> Alignment {
    match alignment_named(value) {
        Some(alignment) => alignment,
        None => Alignment::Left,
    }
}

/// What there is to warn of in a `key: value` pair of the header: the
/// value of a `text_alignment` that names no alignment.
pub open spec fn warning_of(key: Seq<char>, value: Seq<char>) -> Option<Seq<char>> {
    if key == "text_alignment"@ && alignment_named(value) is None {
        Some(value)
    } else {
        None
    }
}

/// The attribute that a `key: value` pair of the header gives.
///
/// `text_size` takes a decimal number and gives nothing for any other
/// value; `text_alignment` and `title` take any value; any other key gives
/// nothing.
pub open spec fn attribute_of(key: Seq<char>, value: Seq<char>) -> Option<Attribute> {
    if key == "text_size"@ {
        match size_value(value) {
            Some(size) => Some(Attribute::TextSize(size)),
            None => None,
        }
    } else if key == "text_alignment"@ {
        Some(Attribute::Alignment(alignment_of(value)))
    } else if key == "title"@ {
        Some(Attribute::Title(value))
    } else {
        None
    }
}

/// How many clusters a line takes, its line end included; all of them
/// where no line end follows.
pub open spec fn line_len(clusters: Seq<Seq<char>>) -> nat {
    let n = run_until(clusters, newlines());
    if n < clusters.len() {
        n + 1
    } else {
        n
    }
}

/// The entry that starts on the first cluster of a text: its key and
/// value, if it has both, and how many clusters it covers.
///
/// The key runs up to the first colon on the line. After the colon and any
/// spaces, the value runs up to the next whitespace cluster. Where the line
/// ends before a colon, the entry is what stands before the line end, and
/// has neither.
pub open spec fn entry_at(clusters: Seq<Seq<char>>) -> (Option<(Seq<char>, Seq<char>)>, nat) {
    let key_len = run_until(clusters, key_end());
    if key_len < clusters.len() && clusters[key_len as int] == ":"@ {
        let value_from = key_len + 1 + run_while(clusters.skip(key_len + 1 as int), blanks());
        let value_to = value_from + run_until(clusters.skip(value_from as int), whitespace());
        (
            Some(
                (
                    clusters.take(key_len as int).flatten(),
                    clusters.subrange(value_from as int, value_to as int).flatten(),
                ),
            ),
            value_to,
        )
    } else {
        (None, key_len)
    }
}

/// The next entry of a header: its key and value, if it has both, and how
/// many clusters are taken to read it.
///
/// Leading whitespace is passed over. Where the closing `-` or the end of
/// the text comes next, there is no entry, and nothing but the whitespace
/// is taken.
///
/// Kept opaque: reveal it to compute with it.
#[verifier::opaque]
pub open spec fn first_pair(clusters: Seq<Seq<char>>) -> (Option<(Seq<char>, Seq<char>)>, nat) {
    let skipped = run_while(clusters, whitespace());
    let rest = clusters.skip(skipped as int);
    if rest.len() == 0 || rest[0] == "-"@ {
        (None, skipped)
    } else {
        (entry_at(rest).0, skipped + entry_at(rest).1)
    }
}

/// The next entry of a header: the attribute it gives, if any, and how
/// many clusters are taken to read it.
pub open spec fn first_entry(clusters: Seq<Seq<char>>) -> (Option<Attribute>, nat) {
    (
        match first_pair(clusters).0 {
            Some((key, value)) => attribute_of(key, value),
            None => None,
        },
        first_pair(clusters).1,
    )
}

/// What there is to warn of in the next entry of a header, if anything.
pub open spec fn first_warning(clusters: Seq<Seq<char>>) -> Option<Seq<char>> {
    match first_pair(clusters).0 {
        Some((key, value)) => warning_of(key, value),
        None => None,
    }
}

/// At the closing `-`, and at the end of the text, there is no entry, and
/// nothing is taken.
pub proof fn lemma_first_entry_stops(clusters: Seq<Seq<char>>)
    requires
        clusters.len() == 0 || clusters[0] == "-"@,
    ensures
        first_entry(clusters) == (None::<Attribute>, 0nat),
        first_warning(clusters) is None,
{
    reveal(first_pair);
    reveal_strlit("-");
    reveal_strlit(" ");
    reveal_strlit("\n");
    reveal_strlit("\r\n");
    if clusters.len() > 0 {
        assert("-"@[0] == '-' && " "@[0] == ' ' && "\n"@[0] == '\n' && "\r\n"@[0] == '\r');
        assert(!whitespace().contains(clusters[0]));
        assert(clusters.skip(0) =~= clusters);
    }
}

/// An entry covers no more clusters than there are, and at least one where
/// it starts on a cluster that is neither whitespace nor the closing `-`.
pub proof fn lemma_first_entry_len(clusters: Seq<Seq<char>>)
    ensures
        first_entry(clusters).1 <= clusters.len(),
        clusters.len() > 0 && !whitespace().contains(clusters[0]) && clusters[0] != "-"@
            ==> first_entry(clusters).1 == entry_at(clusters).1 >= 1,
{
    reveal(first_pair);
    lemma_run_while(clusters, whitespace());
    let skipped = run_while(clusters, whitespace());
    let rest = clusters.skip(skipped as int);
    lemma_entry_at_len(rest);
    if clusters.len() > 0 && !whitespace().contains(clusters[0]) {
        assert(rest =~= clusters);
    }
}

/// An entry that starts on the first cluster covers no more clusters than
/// there are, and at least one where that cluster is no whitespace.
pub proof fn lemma_entry_at_len(clusters: Seq<Seq<char>>)
    ensures
        entry_at(clusters).1 <= clusters.len(),
        clusters.len() > 0 && !whitespace().contains(clusters[0]) ==> entry_at(clusters).1 >= 1,
{
    let key_len = run_until(clusters, key_end());
    lemma_run_until(clusters, key_end());
    if key_len < clusters.len() && clusters[key_len as int] == ":"@ {
        let after = clusters.skip(key_len + 1 as int);
        lemma_run_while(after, blanks());
        let value_from = key_len + 1 + run_while(after, blanks());
        lemma_run_until(clusters.skip(value_from as int), whitespace());
    } else if clusters.len() > 0 && !whitespace().contains(clusters[0]) {
        if key_len == 0 {
            assert(key_end().contains(clusters[0]));
            assert(whitespace()[1] == "\n"@ && whitespace()[2] == "\r\n"@);
        }
    }
}

/// The entries of a header, from after its opening line: the attributes
/// they give, in order, and how many clusters the header takes from here,
/// its closing line included.
///
/// Whitespace between entries is passed over. An entry that starts with
/// `-` is the closing line. Where the text ends first, the header ends
/// with it.
///
/// Kept opaque, with `entry_warnings`: `lemma_entries_unfold` says how both
/// unfold.
#[verifier::opaque]
pub open spec fn entries(clusters: Seq<Seq<char>>) -> (Seq<Attribute>, nat)
    decreases clusters.len(),
{
    let skipped = run_while(clusters, whitespace());
    let rest = clusters.skip(skipped as int);
    if rest.len() == 0 {
        (Seq::empty(), skipped)
    } else if rest[0] == "-"@ {
        (Seq::empty(), skipped + line_len(rest))
    } else {
        proof {
            lemma_run_while(clusters, whitespace());
            lemma_first_entry_len(rest);
        }
        let (attribute, n) = first_entry(rest);
        let (more, m) = entries(rest.skip(n as int));
        (
            match attribute {
                Some(found) => seq![found] + more,
                None => more,
            },
            skipped + n + m,
        )
    }
}

/// The header of a document: its attributes, in order, and how many
/// clusters it takes.
///
/// A document has a header exactly when its first cluster is `-`. The rest
/// of that line is passed over; then come the entries and the closing line.
pub open spec fn prelude(clusters: Seq<Seq<char>>) -> (Seq<Attribute>, nat) {
    if clusters.len() > 0 && clusters[0] == "-"@ {
        let opening = line_len(clusters);
        let (attributes, n) = entries(clusters.skip(opening as int));
        (attributes, opening + n)
    } else {
        (Seq::empty(), 0)
    }
}

/// What there is to warn of in the entries of a header, from after its
/// opening line, in order.
#[verifier::opaque]
pub open spec fn entry_warnings(clusters: Seq<Seq<char>>) -> Seq<Seq<char>>
    decreases clusters.len(),
{
    let skipped = run_while(clusters, whitespace());
    let rest = clusters.skip(skipped as int);
    if rest.len() == 0 || rest[0] == "-"@ {
        Seq::empty()
    } else {
        proof {
            lemma_run_while(clusters, whitespace());
            lemma_first_entry_len(rest);
        }
        let more = entry_warnings(rest.skip(first_entry(rest).1 as int));
        match first_warning(rest) {
            Some(found) => seq![found] + more,
            None => more,
        }
    }
}

/// What there is to warn of in the header of a document, in order: the
/// values of its `text_alignment` entries that name no alignment.
pub open spec fn prelude_warnings(clusters: Seq<Seq<char>>) -> Seq<Seq<char>> {
    if clusters.len() > 0 && clusters[0] == "-"@ {
        entry_warnings(clusters.skip(line_len(clusters) as int))
    } else {
        Seq::empty()
    }
}

/// How the entries of a header unfold: what the text gives after its
/// leading whitespace, by what comes first there.
pub proof fn lemma_entries_unfold(clusters: Seq<Seq<char>>)
    ensures
        ({
            let skipped = run_while(clusters, whitespace());
            let rest = clusters.skip(skipped as int);
            let taken = first_entry(rest).1;
            let tail = rest.skip(taken as int);
            &&& skipped <= clusters.len()
            &&& rest.len() == 0 ==> entries(clusters) == (Seq::<Attribute>::empty(), skipped)
                && entry_warnings(clusters) == Seq::<Seq<char>>::empty()
            &&& rest.len() > 0 && rest[0] == "-"@ ==> entries(clusters) == (
                Seq::<Attribute>::empty(),
                skipped + line_len(rest),
            ) && entry_warnings(clusters) == Seq::<Seq<char>>::empty()
            &&& rest.len() > 0 && rest[0] != "-"@ ==> {
                &&& 1 <= taken <= rest.len()
                &&& entries(clusters).1 == skipped + taken + entries(tail).1
                &&& entries(clusters).0 == match first_entry(rest).0 {
                    Some(found) => seq![found] + entries(tail).0,
                    None => entries(tail).0,
                }
                &&& entry_warnings(clusters) == match first_warning(rest) {
                    Some(found) => seq![found] + entry_warnings(tail),
                    None => entry_warnings(tail),
                }
            }
        }),
{
    reveal(entries);
    reveal(entry_warnings);
    lemma_run_while(clusters, whitespace());
    let rest = clusters.skip(run_while(clusters, whitespace()) as int);
    if rest.len() > 0 && rest[0] != "-"@ {
        lemma_first_entry_len(rest);
    }
}

} // verus!
