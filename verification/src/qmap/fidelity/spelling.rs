//! The tokens that the tokenizer makes of text that was put together from
//! tokens and whitespace.

use crate::qmap::lexer::{
    is_space, lex_spec, scan, LexerState, Scanner, TokenStream, TokenView, QUOTE, SLASH,
};
use crate::qmap::write::in_quotes;
use crate::text::nul_free;
use vstd::prelude::*;

verus! {

/// The tokenizer behind `bytes`.
pub open spec fn run(s: Scanner, bytes: Seq<u8>) -> Scanner
    decreases bytes.len(),
{
    if bytes.len() == 0 {
        s
    } else {
        run(s.step(bytes[0]).0, bytes.skip(1))
    }
}

/// The tokens that the tokenizer gives on its way through `bytes`.
pub open spec fn emitted(s: Scanner, bytes: Seq<u8>) -> Seq<TokenView>
    decreases bytes.len(),
{
    if bytes.len() == 0 {
        Seq::empty()
    } else {
        let (next, token) = s.step(bytes[0]);
        match token {
            Some(t) => seq![t] + emitted(next, bytes.skip(1)),
            None => emitted(next, bytes.skip(1)),
        }
    }
}

/// Going through bytes is taking a step at the first and going through
/// the others.
pub proof fn lemma_run_step(s: Scanner, bytes: Seq<u8>)
    requires
        bytes.len() > 0,
    ensures
        run(s, bytes) == run(s.step(bytes[0]).0, bytes.skip(1)),
        emitted(s, bytes) == (match s.step(bytes[0]).1 {
            Some(t) => seq![t] + emitted(s.step(bytes[0]).0, bytes.skip(1)),
            None => emitted(s.step(bytes[0]).0, bytes.skip(1)),
        }),
{
}

/// Going through one byte is taking a step.
pub proof fn lemma_run_one(s: Scanner, byte: u8)
    ensures
        run(s, seq![byte]) == s.step(byte).0,
        emitted(s, seq![byte]) == (match s.step(byte).1 {
            Some(t) => seq![t],
            None => Seq::empty(),
        }),
{
    let bytes = seq![byte];
    lemma_run_step(s, bytes);
    assert(bytes.skip(1) =~= Seq::<u8>::empty());
    let next = s.step(byte).0;
    assert(run(next, Seq::<u8>::empty()) == next);
    assert(emitted(next, Seq::<u8>::empty()) =~= Seq::<TokenView>::empty());
    match s.step(byte).1 {
        Some(t) => {
            assert(seq![t] + Seq::<TokenView>::empty() =~= seq![t]);
        },
        None => {},
    }
}

/// The texts of `tokens`.
pub open spec fn texts(tokens: Seq<TokenView>) -> Seq<Seq<u8>> {
    tokens.map_values(|t: TokenView| t.text)
}

/// Going through `a` and then through `b` is going through both.
pub proof fn lemma_run_concat(s: Scanner, a: Seq<u8>, b: Seq<u8>)
    ensures
        run(s, a + b) == run(run(s, a), b),
        emitted(s, a + b) == emitted(s, a) + emitted(run(s, a), b),
    decreases a.len(),
{
    if a.len() == 0 {
        assert(a + b =~= b);
        assert(emitted(s, a) + emitted(run(s, a), b) =~= emitted(s, b));
    } else {
        assert((a + b)[0] == a[0]);
        assert((a + b).skip(1) =~= a.skip(1) + b);
        let (next, token) = s.step(a[0]);
        lemma_run_concat(next, a.skip(1), b);
        match token {
            Some(t) => {
                assert(seq![t] + (emitted(next, a.skip(1)) + emitted(run(next, a.skip(1)), b))
                    =~= (seq![t] + emitted(next, a.skip(1))) + emitted(run(next, a.skip(1)), b));
            },
            None => {},
        }
    }
}

/// The tokens of `a` followed by `b` are those given on the way through
/// `a` and then those of `b`.
pub proof fn lemma_scan_concat(s: Scanner, a: Seq<u8>, b: Seq<u8>)
    requires
        nul_free(a),
    ensures
        scan(s, a + b).tokens == emitted(s, a) + scan(run(s, a), b).tokens,
        scan(s, a + b).end == scan(run(s, a), b).end,
    decreases a.len(),
{
    if a.len() == 0 {
        assert(a + b =~= b);
        assert(emitted(s, a) + scan(run(s, a), b).tokens =~= scan(s, b).tokens);
    } else {
        assert((a + b)[0] == a[0]);
        assert(a[0] != 0);
        assert((a + b).skip(1) =~= a.skip(1) + b);
        let (next, token) = s.step(a[0]);
        assert(nul_free(a.skip(1))) by {
            assert forall|i: int| 0 <= i < a.skip(1).len() implies a.skip(1)[i] != 0 by {
                assert(a.skip(1)[i] == a[i + 1]);
            }
        }
        lemma_scan_concat(next, a.skip(1), b);
        match token {
            Some(t) => {
                assert(seq![t] + (emitted(next, a.skip(1)) + scan(run(next, a.skip(1)), b).tokens)
                    =~= (seq![t] + emitted(next, a.skip(1))) + scan(
                    run(next, a.skip(1)),
                    b,
                ).tokens);
            },
            None => {},
        }
    }
}

/// No byte of `bytes` is whitespace.
pub open spec fn space_free(bytes: Seq<u8>) -> bool {
    forall|i: int| 0 <= i < bytes.len() ==> !is_space(#[trigger] bytes[i])
}

/// Every byte of `bytes` is whitespace, and there is one.
pub open spec fn is_gap(bytes: Seq<u8>) -> bool {
    &&& bytes.len() >= 1
    &&& forall|i: int| 0 <= i < bytes.len() ==> is_space(#[trigger] bytes[i])
}

/// No byte of `bytes` is a quote.
pub open spec fn quote_free(bytes: Seq<u8>) -> bool {
    forall|i: int| 0 <= i < bytes.len() ==> #[trigger] bytes[i] != QUOTE
}

/// Text that the tokenizer gives back as one token when whitespace
/// follows: it has a byte, none of its bytes is NUL or whitespace, it does
/// not begin with a quote, and where it begins with a slash, a byte that
/// is no slash follows.
pub open spec fn is_plain(text: Seq<u8>) -> bool {
    &&& text.len() >= 1
    &&& nul_free(text)
    &&& space_free(text)
    &&& text[0] != QUOTE
    &&& text[0] == SLASH ==> text.len() >= 2 && text[1] != SLASH
}

/// Text that can stand between quotes: none of its bytes is NUL or a
/// quote.
pub open spec fn is_inner(text: Seq<u8>) -> bool {
    nul_free(text) && quote_free(text)
}

/// The tokenizer, between tokens, makes of `bytes` the tokens of the texts
/// `words`, and is between tokens again behind them.
pub open spec fn spells(bytes: Seq<u8>, words: Seq<Seq<u8>>) -> bool {
    &&& nul_free(bytes)
    &&& forall|s: Scanner|
        s.state == LexerState::Default ==> (#[trigger] run(s, bytes)).state
            == LexerState::Default && texts(emitted(s, bytes)) == words
}

/// Nothing spells nothing.
pub proof fn lemma_spells_nothing()
    ensures
        spells(Seq::empty(), Seq::empty()),
{
    assert forall|s: Scanner| s.state == LexerState::Default implies (#[trigger] run(
        s,
        Seq::<u8>::empty(),
    )).state == LexerState::Default && texts(emitted(s, Seq::<u8>::empty())) == Seq::<
        Seq<u8>,
    >::empty() by {
        assert(texts(emitted(s, Seq::<u8>::empty())) =~= Seq::<Seq<u8>>::empty());
    }
}

/// What two texts spell one behind the other, they spell together.
pub proof fn lemma_spells_both(a: Seq<u8>, words_a: Seq<Seq<u8>>, b: Seq<u8>, words_b: Seq<Seq<u8>>)
    requires
        spells(a, words_a),
        spells(b, words_b),
    ensures
        spells(a + b, words_a + words_b),
{
    assert forall|s: Scanner| s.state == LexerState::Default implies (#[trigger] run(
        s,
        a + b,
    )).state == LexerState::Default && texts(emitted(s, a + b)) == words_a + words_b by {
        lemma_run_concat(s, a, b);
        let mid = run(s, a);
        assert(mid.state == LexerState::Default);
        assert(run(mid, b).state == LexerState::Default);
        assert(texts(emitted(s, a) + emitted(mid, b)) =~= texts(emitted(s, a)) + texts(
            emitted(mid, b),
        ));
    }
}

/// In an unquoted token, bytes that are no whitespace are taken.
proof fn lemma_run_unquoted(s: Scanner, bytes: Seq<u8>)
    requires
        s.state == LexerState::Unquoted,
        space_free(bytes),
    ensures
        run(s, bytes).state == LexerState::Unquoted,
        run(s, bytes).text == s.text + bytes,
        emitted(s, bytes) == Seq::<TokenView>::empty(),
    decreases bytes.len(),
{
    if bytes.len() == 0 {
        assert(s.text + bytes =~= s.text);
    } else {
        let next = s.step(bytes[0]).0;
        assert(!is_space(bytes[0]));
        assert(space_free(bytes.skip(1))) by {
            assert forall|i: int| 0 <= i < bytes.skip(1).len() implies !is_space(
                #[trigger] bytes.skip(1)[i],
            ) by {
                assert(bytes.skip(1)[i] == bytes[i + 1]);
            }
        }
        lemma_run_unquoted(next, bytes.skip(1));
        assert(s.text.push(bytes[0]) + bytes.skip(1) =~= s.text + bytes);
    }
}

/// In a quoted token, bytes that are no quote are taken.
proof fn lemma_run_quoted(s: Scanner, bytes: Seq<u8>)
    requires
        s.state == LexerState::Quoted,
        quote_free(bytes),
    ensures
        run(s, bytes).state == LexerState::Quoted,
        run(s, bytes).text == s.text + bytes,
        emitted(s, bytes) == Seq::<TokenView>::empty(),
    decreases bytes.len(),
{
    if bytes.len() == 0 {
        assert(s.text + bytes =~= s.text);
    } else {
        let next = s.step(bytes[0]).0;
        assert(bytes[0] != QUOTE);
        assert(quote_free(bytes.skip(1))) by {
            assert forall|i: int| 0 <= i < bytes.skip(1).len() implies #[trigger] bytes.skip(
                1,
            )[i] != QUOTE by {
                assert(bytes.skip(1)[i] == bytes[i + 1]);
            }
        }
        lemma_run_quoted(next, bytes.skip(1));
        assert(s.text.push(bytes[0]) + bytes.skip(1) =~= s.text + bytes);
    }
}

/// Between tokens, whitespace is passed over.
proof fn lemma_run_spaces(s: Scanner, bytes: Seq<u8>)
    requires
        s.state == LexerState::Default,
        forall|i: int| 0 <= i < bytes.len() ==> is_space(#[trigger] bytes[i]),
    ensures
        run(s, bytes).state == LexerState::Default,
        emitted(s, bytes) == Seq::<TokenView>::empty(),
    decreases bytes.len(),
{
    if bytes.len() > 0 {
        let next = s.step(bytes[0]).0;
        assert(is_space(bytes[0]));
        assert forall|i: int| 0 <= i < bytes.skip(1).len() implies is_space(
            #[trigger] bytes.skip(1)[i],
        ) by {
            assert(bytes.skip(1)[i] == bytes[i + 1]);
        }
        lemma_run_spaces(next, bytes.skip(1));
    }
}

/// Behind a token that whitespace ends, the tokenizer is between tokens
/// once the whitespace is passed.
proof fn lemma_run_gap(s: Scanner, gap: Seq<u8>)
    requires
        s.state == LexerState::Unquoted,
        is_gap(gap),
    ensures
        run(s, gap).state == LexerState::Default,
        texts(emitted(s, gap)) == seq![s.text],
{
    let (next, token) = s.step(gap[0]);
    lemma_run_step(s, gap);
    assert(is_space(gap[0]));
    assert forall|i: int| 0 <= i < gap.skip(1).len() implies is_space(
        #[trigger] gap.skip(1)[i],
    ) by {
        assert(gap.skip(1)[i] == gap[i + 1]);
    }
    lemma_run_spaces(next, gap.skip(1));
    assert(emitted(s, gap) =~= seq![s.token()]);
    assert(texts(emitted(s, gap)) =~= seq![s.text]);
}

/// Plain text with whitespace behind it spells itself.
pub proof fn lemma_spells_plain(text: Seq<u8>, gap: Seq<u8>)
    requires
        is_plain(text),
        is_gap(gap),
    ensures
        spells(text + gap, seq![text]),
{
    assert(nul_free(text + gap)) by {
        assert forall|i: int| 0 <= i < (text + gap).len() implies (text + gap)[i] != 0 by {
            if i < text.len() {
                assert((text + gap)[i] == text[i]);
            } else {
                assert((text + gap)[i] == gap[i - text.len()]);
                assert(is_space(gap[i - text.len()]));
            }
        }
    }
    assert forall|s: Scanner| s.state == LexerState::Default implies (#[trigger] run(
        s,
        text + gap,
    )).state == LexerState::Default && texts(emitted(s, text + gap)) == seq![text] by {
        lemma_run_concat(s, text, gap);
        assert(!is_space(text[0]));
        let first = s.step(text[0]).0;
        let rest = text.skip(1);
        assert(space_free(rest)) by {
            assert forall|i: int| 0 <= i < rest.len() implies !is_space(#[trigger] rest[i]) by {
                assert(rest[i] == text[i + 1]);
            }
        }
        lemma_run_step(s, text);
        if text[0] == SLASH {
            assert(rest[0] == text[1]);
            lemma_run_step(first, rest);
            let second = first.step(rest[0]).0;
            assert(second.state == LexerState::Unquoted);
            assert(second.text == seq![SLASH, text[1]]);
            let tail = rest.skip(1);
            assert(space_free(tail)) by {
                assert forall|i: int| 0 <= i < tail.len() implies !is_space(#[trigger] tail[i]) by {
                    assert(tail[i] == rest[i + 1]);
                }
            }
            lemma_run_unquoted(second, tail);
            assert(seq![SLASH, text[1]] + tail =~= text);
            assert(run(s, text) == run(second, tail));
            assert(emitted(s, text) == emitted(second, tail));
        } else {
            assert(first.state == LexerState::Unquoted);
            assert(first.text == seq![text[0]]);
            lemma_run_unquoted(first, rest);
            assert(seq![text[0]] + rest =~= text);
            assert(run(s, text) == run(first, rest));
            assert(emitted(s, text) == emitted(first, rest));
        }
        let mid = run(s, text);
        assert(mid.state == LexerState::Unquoted && mid.text == text);
        lemma_run_gap(mid, gap);
        assert(emitted(s, text) + emitted(mid, gap) =~= emitted(mid, gap));
    }
}

/// Text between quotes with whitespace behind it spells itself, quotes
/// and all.
pub proof fn lemma_spells_quoted(inner: Seq<u8>, gap: Seq<u8>)
    requires
        is_inner(inner),
        is_gap(gap),
    ensures
        spells(in_quotes(inner) + gap, seq![in_quotes(inner)]),
{
    let span = in_quotes(inner);
    assert(nul_free(span + gap)) by {
        assert forall|i: int| 0 <= i < (span + gap).len() implies (span + gap)[i] != 0 by {
            if i == 0 {
            } else if i <= inner.len() {
                assert((span + gap)[i] == inner[i - 1]);
            } else if i == inner.len() + 1 {
            } else {
                assert((span + gap)[i] == gap[i - span.len()]);
                assert(is_space(gap[i - span.len()]));
            }
        }
    }
    assert forall|s: Scanner| s.state == LexerState::Default implies (#[trigger] run(
        s,
        span + gap,
    )).state == LexerState::Default && texts(emitted(s, span + gap)) == seq![span] by {
        lemma_run_concat(s, span, gap);
        let open = seq![QUOTE];
        let close = seq![QUOTE];
        assert(span == (open + inner) + close);
        lemma_run_concat(s, open + inner, close);
        lemma_run_concat(s, open, inner);
        let first = s.step(QUOTE).0;
        lemma_run_one(s, QUOTE);
        assert(run(s, open) == first);
        assert(emitted(s, open) =~= Seq::<TokenView>::empty());
        assert(first.state == LexerState::Quoted && first.text == seq![QUOTE]);
        lemma_run_quoted(first, inner);
        let full = run(first, inner);
        assert(full.text == open + inner);
        lemma_run_one(full, QUOTE);
        let (closed, token) = full.step(QUOTE);
        assert(run(full, close) == closed);
        assert(token->0.text == (open + inner).push(QUOTE));
        assert((open + inner).push(QUOTE) =~= span);
        assert(emitted(full, close) =~= seq![token->0]);
        assert(closed.state == LexerState::Default);
        assert forall|i: int| 0 <= i < gap.len() implies is_space(#[trigger] gap[i]) by {}
        lemma_run_spaces(closed, gap);
        assert(emitted(s, span) =~= seq![token->0]);
        assert(emitted(s, span + gap) =~= seq![token->0]);
        assert(texts(emitted(s, span + gap)) =~= seq![span]);
    }
}

/// The tokens of text that spells `words` are of these texts, and no error
/// ends them.
pub proof fn lemma_lex_spelled(bytes: Seq<u8>, words: Seq<Seq<u8>>)
    requires
        spells(bytes, words),
    ensures
        texts(lex_spec(bytes).tokens) == words,
        lex_spec(bytes).end is None,
{
    let s = Scanner::start();
    lemma_scan_concat(s, bytes, Seq::empty());
    assert(bytes + Seq::<u8>::empty() =~= bytes);
    let last = run(s, bytes);
    assert(last.state == LexerState::Default);
    assert(scan(last, Seq::empty()) == TokenStream::empty());
    assert(emitted(s, bytes) + Seq::<TokenView>::empty() =~= emitted(s, bytes));
}

} // verus!
