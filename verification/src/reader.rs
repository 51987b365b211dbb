//! The response reader: folds the token stream of a response body into
//! an ordered sequence of (key, value) pairs, and answers first-match
//! lookups. A `<key>` element's text becomes the pending key; a
//! `<value>` element's text emits a pair. A tokenizer fault ends the
//! read with whatever was emitted before it.

use vstd::prelude::*;
use vstd::string::StringExecFns;
use crate::tokens::{TokenView, XmlToken, token_views, xml_tokens_of, tokenize};

verus! {

/// The reader's state between tokenizer events.
pub struct ReadState {
    /// The last start element was `<key>`.
    pub reading_key: bool,
    /// The last start element was `<value>`.
    pub reading_value: bool,
    /// The most recent `<key>` text.
    pub current_key: Seq<char>,
    /// The pairs emitted so far, in document order.
    pub pairs: Seq<(Seq<char>, Seq<char>)>,
}

/// The state before any event.
pub open spec fn init_state() -> ReadState {
    ReadState {
        reading_key: false,
        reading_value: false,
        current_key: Seq::empty(),
        pairs: Seq::empty(),
    }
}

/// One event's effect on the reader's state.
pub open spec fn step(st: ReadState, t: TokenView) -> ReadState {
    match t {
        TokenView::Start(n) => ReadState {
            reading_key: n == "key"@,
            reading_value: n == "value"@,
            current_key: st.current_key,
            pairs: st.pairs,
        },
        TokenView::Text(x) => ReadState {
            reading_key: st.reading_key,
            reading_value: st.reading_value,
            current_key: if st.reading_key { x } else { st.current_key },
            pairs: if st.reading_value {
                st.pairs.push((if st.reading_key { x } else { st.current_key }, x))
            } else {
                st.pairs
            },
        },
        TokenView::End(_) => st,
        TokenView::Other => st,
        TokenView::Fault => st,
    }
}

/// Folds the events over the state, stopping at the first fault.
pub open spec fn run(st: ReadState, ts: Seq<TokenView>) -> ReadState
    decreases ts.len(),
{
    if ts.len() == 0 {
        st
    } else if ts[0] is Fault {
        st
    } else {
        run(step(st, ts[0]), ts.drop_first())
    }
}

/// The pairs that a token stream yields.
pub open spec fn spec_parse(ts: Seq<TokenView>) -> Seq<(Seq<char>, Seq<char>)> {
    run(init_state(), ts).pairs
}

/// The views of a pair sequence, element by element.
pub open spec fn pairs_view(ps: Seq<(String, String)>) -> Seq<(Seq<char>, Seq<char>)> {
    ps.map_values(|p: (String, String)| (p.0@, p.1@))
}

/// The value of the first pair whose key matches, or the empty string.
pub open spec fn spec_value(pairs: Seq<(Seq<char>, Seq<char>)>, key: Seq<char>) -> Seq<char>
    decreases pairs.len(),
{
    if pairs.len() == 0 {
        Seq::empty()
    } else if pairs[0].0 == key {
        pairs[0].1
    } else {
        spec_value(pairs.drop_first(), key)
    }
}

/// Folding distributes over concatenation while no fault occurs.
pub proof fn lemma_run_append(st: ReadState, a: Seq<TokenView>, b: Seq<TokenView>)
    requires
        forall|j: int| 0 <= j < a.len() ==> !(a[j] is Fault),
    ensures
        run(st, a + b) == run(run(st, a), b),
    decreases a.len(),
{
    if a.len() == 0 {
        assert(a + b =~= b);
    } else {
        assert((a + b)[0] == a[0]);
        assert((a + b).drop_first() =~= a.drop_first() + b);
        lemma_run_append(step(st, a[0]), a.drop_first(), b);
    }
}

/// A fault ends the fold: everything after the first fault is ignored.
pub proof fn lemma_run_stops_at_fault(st: ReadState, ts: Seq<TokenView>, i: int)
    requires
        0 <= i < ts.len(),
        ts[i] is Fault,
        forall|j: int| 0 <= j < i ==> !(ts[j] is Fault),
    ensures
        run(st, ts) == run(st, ts.take(i)),
    decreases i,
{
    if i == 0 {
    } else {
        assert(ts.take(i)[0] == ts[0]);
        assert(ts.drop_first().take(i - 1) =~= ts.take(i).drop_first());
        lemma_run_stops_at_fault(step(st, ts[0]), ts.drop_first(), i - 1);
    }
}

/// A tokenizer fault mid-stream yields exactly the pairs emitted
/// before the fault, and nothing more.
pub proof fn lemma_parse_stops_at_fault(ts: Seq<TokenView>, i: int)
    requires
        0 <= i < ts.len(),
        ts[i] is Fault,
        forall|j: int| 0 <= j < i ==> !(ts[j] is Fault),
    ensures
        spec_parse(ts) == spec_parse(ts.take(i)),
{
    lemma_run_stops_at_fault(init_state(), ts, i);
}

/// The token stream of one rendered item:
/// `<item><key>k</key><value>v</value></item>`.
pub open spec fn item_tokens(k: Seq<char>, v: Seq<char>) -> Seq<TokenView> {
    seq![
        TokenView::Start("item"@),
        TokenView::Start("key"@),
        TokenView::Text(k),
        TokenView::End("key"@),
        TokenView::Start("value"@),
        TokenView::Text(v),
        TokenView::End("value"@),
        TokenView::End("item"@),
    ]
}

/// The token streams of the items of a pair list, in order.
pub open spec fn items_tokens(pairs: Seq<(Seq<char>, Seq<char>)>) -> Seq<TokenView>
    decreases pairs.len(),
{
    if pairs.len() == 0 {
        Seq::empty()
    } else {
        item_tokens(pairs[0].0, pairs[0].1) + items_tokens(pairs.drop_first())
    }
}

/// The token stream of a pair list rendered inside the `return`
/// wrapper.
pub open spec fn render_tokens(pairs: Seq<(Seq<char>, Seq<char>)>) -> Seq<TokenView> {
    seq![TokenView::Start("return"@)] + items_tokens(pairs) + seq![TokenView::End("return"@)]
}

/// One item's tokens leave the accumulated pairs extended by exactly
/// that pair.
proof fn lemma_run_item(st: ReadState, k: Seq<char>, v: Seq<char>)
    ensures
        run(st, item_tokens(k, v)) == (ReadState {
            reading_key: false,
            reading_value: true,
            current_key: k,
            pairs: st.pairs.push((k, v)),
        }),
{
    reveal_strlit("item");
    reveal_strlit("key");
    reveal_strlit("value");
    assert("item"@.len() == 4 && "key"@.len() == 3 && "value"@.len() == 5);
    assert("item"@ != "key"@ && "item"@ != "value"@ && "key"@ != "value"@);
    reveal_with_fuel(run, 10);
}

/// Rendered items hold no fault token.
proof fn lemma_items_no_fault(pairs: Seq<(Seq<char>, Seq<char>)>)
    ensures
        forall|j: int| 0 <= j < items_tokens(pairs).len() ==> !(items_tokens(pairs)[j] is Fault),
    decreases pairs.len(),
{
    if pairs.len() == 0 {
    } else {
        lemma_items_no_fault(pairs.drop_first());
        assert forall|j: int| 0 <= j < items_tokens(pairs).len() implies !(items_tokens(pairs)[j]
            is Fault) by {
            if j >= 8 {
                assert(items_tokens(pairs)[j] == items_tokens(pairs.drop_first())[j - 8]);
            }
        }
    }
}

/// Reading the items of a pair list appends exactly those pairs.
proof fn lemma_run_items(st: ReadState, pairs: Seq<(Seq<char>, Seq<char>)>)
    ensures
        run(st, items_tokens(pairs)).pairs == st.pairs + pairs,
    decreases pairs.len(),
{
    if pairs.len() == 0 {
        assert(st.pairs + pairs =~= st.pairs);
    } else {
        let head = item_tokens(pairs[0].0, pairs[0].1);
        lemma_items_no_fault(pairs);
        assert(items_tokens(pairs) == head + items_tokens(pairs.drop_first()));
        assert(forall|j: int| 0 <= j < head.len() ==> !(#[trigger] head[j] is Fault)) by {
            assert(forall|j: int| 0 <= j < head.len() ==> #[trigger] head[j] == items_tokens(pairs)[j]);
        }
        lemma_run_append(st, head, items_tokens(pairs.drop_first()));
        lemma_run_item(st, pairs[0].0, pairs[0].1);
        lemma_run_items(run(st, head), pairs.drop_first());
        assert((pairs[0].0, pairs[0].1) == pairs[0]);
        assert(st.pairs.push(pairs[0]) + pairs.drop_first() =~= st.pairs + pairs);
    }
}

/// Round trip at the token level: reading back the token stream of a
/// rendered pair list yields exactly those pairs, in order. The
/// string-level half — that the tokenizer turns the rendered text into
/// this stream — rests on the tokenizer itself.
pub proof fn lemma_parse_render_tokens(pairs: Seq<(Seq<char>, Seq<char>)>)
    ensures
        spec_parse(render_tokens(pairs)) == pairs,
{
    reveal_strlit("return");
    reveal_strlit("key");
    reveal_strlit("value");
    assert("return"@.len() == 6 && "key"@.len() == 3 && "value"@.len() == 5);
    assert("return"@ != "key"@ && "return"@ != "value"@);
    reveal_with_fuel(run, 3);
    let head = seq![TokenView::Start("return"@)];
    let tail = seq![TokenView::End("return"@)];
    assert(render_tokens(pairs) =~= head + (items_tokens(pairs) + tail));
    lemma_run_append(init_state(), head, items_tokens(pairs) + tail);
    assert(head.drop_first() =~= Seq::<TokenView>::empty());
    assert(run(init_state(), head) == init_state());
    lemma_items_no_fault(pairs);
    lemma_run_append(init_state(), items_tokens(pairs), tail);
    lemma_run_items(init_state(), pairs);
    let st2 = run(init_state(), items_tokens(pairs));
    assert(tail.drop_first() =~= Seq::<TokenView>::empty());
    assert(run(st2, tail) == st2);
    assert(init_state().pairs + pairs =~= pairs);
}

/// Folds a token stream into its ordered (key, value) pairs.
pub fn read_pairs(tokens: &Vec<XmlToken>) -> (r: Vec<(String, String)>)
    ensures
        pairs_view(r@) == spec_parse(token_views(tokens@)),
{
    let ghost views = token_views(tokens@);
    let mut out: Vec<(String, String)> = Vec::new();
    let mut reading_key = false;
    let mut reading_value = false;
    let mut current_key = String::new();
    let key_name: String = String::from_str("key");
    let value_name: String = String::from_str("value");
    let mut i: usize = 0;
    proof {
        assert(views.take(0) =~= Seq::<TokenView>::empty());
        assert(pairs_view(out@) =~= Seq::<(Seq<char>, Seq<char>)>::empty());
    }
    while i < tokens.len()
        invariant
            i <= tokens.len(),
            views == token_views(tokens@),
            key_name@ == "key"@,
            value_name@ == "value"@,
            forall|j: int| 0 <= j < i ==> !(views[j] is Fault),
            run(init_state(), views.take(i as int)) == (ReadState {
                reading_key: reading_key,
                reading_value: reading_value,
                current_key: current_key@,
                pairs: pairs_view(out@),
            }),
        decreases tokens.len() - i,
    {
        let ghost st = run(init_state(), views.take(i as int));
        proof {
            assert(views[i as int] == tokens@[i as int]@);
            assert(views.take(i as int + 1) =~= views.take(i as int) + seq![views[i as int]]);
            if !(views[i as int] is Fault) {
                lemma_run_append(init_state(), views.take(i as int), seq![views[i as int]]);
                assert(seq![views[i as int]].drop_first() =~= Seq::<TokenView>::empty());
                assert(run(st, seq![views[i as int]]) == run(step(st, views[i as int]), Seq::<TokenView>::empty()));
            }
        }
        match &tokens[i] {
            XmlToken::Start(n) => {
                reading_key = *n == key_name;
                reading_value = *n == value_name;
            },
            XmlToken::Text(t) => {
                if reading_key {
                    current_key = t.clone();
                }
                if reading_value {
                    let ghost before = pairs_view(out@);
                    out.push((current_key.clone(), t.clone()));
                    proof {
                        assert(pairs_view(out@) =~= before.push((current_key@, t@)));
                    }
                }
            },
            XmlToken::End(_) => {},
            XmlToken::Other => {},
            XmlToken::Fault => {
                proof {
                    lemma_run_stops_at_fault(init_state(), views, i as int);
                }
                return out;
            },
        }
        i = i + 1;
    }
    proof {
        assert(views.take(tokens@.len() as int) =~= views);
    }
    out
}

/// Parses a response body: the ordered (key, value) pairs that its
/// token stream yields.
pub fn parse(body: &str) -> (r: Vec<(String, String)>)
    ensures
        pairs_view(r@) == spec_parse(xml_tokens_of(body@)),
{
    let tokens = tokenize(body);
    read_pairs(&tokens)
}

/// Returns the value of the first pair whose key equals `key`, or the
/// empty string when no pair matches.
pub fn value(items: &Vec<(String, String)>, key: &str) -> (r: String)
    ensures
        r@ == spec_value(pairs_view(items@), key@),
{
    let wanted: String = String::from_str(key);
    let mut i: usize = 0;
    proof {
        assert(pairs_view(items@).skip(0) =~= pairs_view(items@));
    }
    while i < items.len()
        invariant
            i <= items.len(),
            wanted@ == key@,
            spec_value(pairs_view(items@), key@) == spec_value(pairs_view(items@).skip(i as int), key@),
        decreases items.len() - i,
    {
        proof {
            assert(pairs_view(items@).skip(i as int)[0] == (items@[i as int].0@, items@[i as int].1@));
            assert(pairs_view(items@).skip(i as int).drop_first() =~= pairs_view(items@).skip(i as int + 1));
        }
        if items[i].0 == wanted {
            return items[i].1.clone();
        }
        i = i + 1;
    }
    proof {
        assert(pairs_view(items@).skip(items@.len() as int) =~= Seq::<(Seq<char>, Seq<char>)>::empty());
    }
    String::new()
}

/// The first matching pair decides the lookup: when some pair carries
/// the key, the result is the value of the earliest such pair; when
/// none does, the result is the empty string.
pub proof fn lemma_value_first_match(pairs: Seq<(Seq<char>, Seq<char>)>, key: Seq<char>)
    ensures
        (exists|i: int| 0 <= i < pairs.len() && pairs[i].0 == key) ==> (exists|i: int|
            0 <= i < pairs.len() && pairs[i].0 == key && spec_value(pairs, key) == pairs[i].1
                && (forall|j: int| 0 <= j < i ==> pairs[j].0 != key)),
        (forall|i: int| 0 <= i < pairs.len() ==> pairs[i].0 != key) ==> spec_value(pairs, key)
            == Seq::<char>::empty(),
    decreases pairs.len(),
{
    if pairs.len() == 0 {
    } else if pairs[0].0 == key {
        assert(0 <= 0 < pairs.len() && pairs[0].0 == key && spec_value(pairs, key) == pairs[0].1
            && (forall|j: int| 0 <= j < 0 ==> pairs[j].0 != key));
    } else {
        lemma_value_first_match(pairs.drop_first(), key);
        if exists|i: int| 0 <= i < pairs.len() && pairs[i].0 == key {
            let i0 = choose|i: int| 0 <= i < pairs.len() && pairs[i].0 == key;
            assert(pairs.drop_first()[i0 - 1].0 == key);
            let k = choose|i: int|
                0 <= i < pairs.drop_first().len() && pairs.drop_first()[i].0 == key
                    && spec_value(pairs.drop_first(), key) == pairs.drop_first()[i].1
                    && (forall|j: int| 0 <= j < i ==> pairs.drop_first()[j].0 != key);
            assert(pairs[k + 1].0 == key && spec_value(pairs, key) == pairs[k + 1].1
                && (forall|j: int| 0 <= j < k + 1 ==> pairs[j].0 != key)) by {
                assert(forall|j: int| 1 <= j < k + 1 ==> pairs[j].0 == pairs.drop_first()[j - 1].0);
            }
        } else {
            assert(forall|i: int| 0 <= i < pairs.drop_first().len() ==> pairs.drop_first()[i].0 != key) by {
                assert(forall|i: int| 0 <= i < pairs.drop_first().len() ==> pairs.drop_first()[i].0 == pairs[i + 1].0);
            }
        }
    }
}

} // verus!
