use vstd::prelude::*;
use vstd::string::{StrSliceExecFns, StringExecFns};

verus! {

/// The lifecycle of one session: the event loop runs until the window is
/// closed, and `Closed` is terminal.
#[derive(Clone, Copy, PartialEq, Eq, Structural, Debug)]
pub enum SessionState {
    Running,
    Closed,
}

/// One event of interest to the session host. Window events other than a
/// close request, and the diagnostic completion callback of a script
/// injection, are all `Other`.
#[derive(Clone, Copy, PartialEq, Eq, Structural, Debug)]
pub enum SessionEvent {
    /// The event loop has started.
    Started,
    /// A submission message arrived on the inbound-message channel.
    MessageReceived,
    /// The user asked to close the window.
    CloseRequested,
    /// Anything else.
    Other,
}

/// The session's state machine: a close request, and only a close request,
/// moves the session to `Closed`; every other event — a submission message
/// included, malformed or not — leaves the state as it is.
pub fn step(state: SessionState, event: &SessionEvent) -> (next: SessionState)
    ensures
        next is Closed <==> (state is Closed || event is CloseRequested),
{
    match event {
        SessionEvent::CloseRequested => SessionState::Closed,
        _ => state,
    }
}

/// The submitted value texts of a message: the message split on the reserved
/// separator. A message always holds at least one value text, the empty
/// message the single empty one.
pub open spec fn spec_split(s: Seq<char>) -> Seq<Seq<char>>
    decreases s.len(),
{
    if s.len() == 0 {
        seq![Seq::<char>::empty()]
    } else if s[0] == ',' {
        seq![Seq::<char>::empty()] + spec_split(s.drop_first())
    } else {
        let rest = spec_split(s.drop_first());
        seq![seq![s[0]] + rest[0]] + rest.drop_first()
    }
}

/// Splitting never yields an empty list: even the empty message carries one
/// (empty) value text.
pub proof fn lemma_split_nonempty(s: Seq<char>)
    ensures
        spec_split(s).len() >= 1,
    decreases s.len(),
{
    if s.len() != 0 {
        lemma_split_nonempty(s.drop_first());
    }
}

proof fn lemma_split_push(s: Seq<char>, c: char)
    ensures
        c == ',' ==> spec_split(s.push(c)) == spec_split(s).push(Seq::<char>::empty()),
        c != ',' ==> spec_split(s.push(c)) == spec_split(s).update(
            spec_split(s).len() - 1,
            spec_split(s).last().push(c),
        ),
    decreases s.len(),
{
    lemma_split_nonempty(s);
    if s.len() == 0 {
        assert(s.push(c).len() == 1);
        assert(s.push(c)[0] == c);
        assert(s.push(c).drop_first() =~= Seq::<char>::empty());
        assert(spec_split(s.push(c).drop_first()) == seq![Seq::<char>::empty()]);
        if c == ',' {
            assert(spec_split(s.push(c)) =~~= spec_split(s).push(Seq::<char>::empty()));
        } else {
            assert(spec_split(s.push(c)) =~~= spec_split(s).update(
                spec_split(s).len() - 1,
                spec_split(s).last().push(c),
            ));
        }
    } else {
        lemma_split_push(s.drop_first(), c);
        lemma_split_nonempty(s.drop_first());
        assert(s.push(c).drop_first() =~= s.drop_first().push(c));
        assert(s.push(c)[0] == s[0]);
        if c == ',' {
            assert(spec_split(s.push(c)) =~~= spec_split(s).push(Seq::<char>::empty()));
        } else {
            assert(spec_split(s.push(c)) =~~= spec_split(s).update(
                spec_split(s).len() - 1,
                spec_split(s).last().push(c),
            ));
        }
    }
}

/// Splits a submission message on the reserved separator into its value
/// texts, in message order.
pub fn split_message(message: &str) -> (parts: Vec<String>)
    ensures
        parts.deep_view() == spec_split(message@),
{
    let n: usize = message.unicode_len();
    let mut parts: Vec<String> = Vec::new();
    let mut start: usize = 0;
    let mut i: usize = 0;
    proof {
        assert(message@.take(0) =~= Seq::<char>::empty());
        assert(parts.deep_view() =~~= Seq::<Seq<char>>::empty());
        assert(message@.subrange(0, 0) =~= Seq::<char>::empty());
    }
    while i < n
        invariant
            start <= i <= n,
            n == message@.len(),
            spec_split(message@.take(i as int)) == parts.deep_view().push(
                message@.subrange(start as int, i as int),
            ),
        decreases n - i,
    {
        let ghost prefix = message@.take(i as int);
        let ghost prev = parts.deep_view();
        let ghost pending = message@.subrange(start as int, i as int);
        let c = message.get_char(i);
        proof {
            assert(message@.take(i + 1) =~= prefix.push(message@[i as int]));
            lemma_split_push(prefix, message@[i as int]);
        }
        if c == ',' {
            let piece = message.substring_char(start, i).to_owned();
            parts.push(piece);
            start = i + 1;
            proof {
                assert(parts.deep_view() =~~= prev.push(pending));
                assert(message@.subrange(i + 1, i + 1) =~= Seq::<char>::empty());
                assert(spec_split(message@.take(i + 1)) =~~= parts.deep_view().push(
                    message@.subrange(i + 1, i + 1),
                ));
            }
        } else {
            proof {
                assert(message@.subrange(start as int, i + 1) =~= pending.push(
                    message@[i as int],
                ));
                assert(prev.push(pending).update(prev.len() as int, pending.push(
                    message@[i as int],
                )) =~~= prev.push(message@.subrange(start as int, i + 1)));
                assert(prev.push(pending).last() == pending);
                assert(spec_split(message@.take(i + 1)) =~~= parts.deep_view().push(
                    message@.subrange(start as int, i + 1),
                ));
            }
        }
        i += 1;
    }
    let ghost prev = parts.deep_view();
    let last = message.substring_char(start, n).to_owned();
    parts.push(last);
    proof {
        assert(message@.take(n as int) =~= message@);
        assert(parts.deep_view() =~~= prev.push(message@.subrange(start as int, n as int)));
    }
    parts
}

/// Checks a submission message against the registered descriptor count: the
/// message's value texts are returned exactly when there are as many of them
/// as descriptors, and any other arity drops the submission.
pub fn split_submission(message: &str, expected: usize) -> (r: Option<Vec<String>>)
    ensures
        (r is Some) <==> spec_split(message@).len() == expected,
        r is Some ==> r->0.deep_view() == spec_split(message@),
{
    let parts = split_message(message);
    proof {
        assert(parts@.len() == parts.deep_view().len());
    }
    if parts.len() == expected {
        Option::Some(parts)
    } else {
        Option::None
    }
}

/// Assembles the arguments of one invocation from the per-value parse
/// outcomes: the invocation proceeds exactly when every value text parsed,
/// and a single unparseable value drops the whole submission.
#[verifier::loop_isolation(false)]
pub fn invocation_arguments<T>(parsed: Vec<Option<T>>) -> (r: Option<Vec<T>>)
    ensures
        (r is Some) <==> (forall|i: int| 0 <= i < parsed@.len() ==> parsed@[i] is Some),
        r is Some ==> r->0@ == parsed@.map_values(|p: Option<T>| p->0),
{
    let ghost all = parsed@;
    let mut rest = parsed;
    let mut out: Vec<T> = Vec::new();
    proof {
        assert(rest@ =~= all.subrange(0, all.len() as int));
    }
    while rest.len() > 0
        invariant
            out@.len() + rest@.len() == all.len(),
            rest@ == all.subrange(out@.len() as int, all.len() as int),
            forall|i: int|
                0 <= i < out@.len() ==> (#[trigger] all[i]) is Some && all[i]->0 == out@[i],
        decreases rest@.len(),
    {
        let ghost k = out@.len() as int;
        let first = rest.remove(0);
        proof {
            assert(first == all[k]);
            assert(rest@ =~= all.subrange(k + 1, all.len() as int));
        }
        match first {
            Option::Some(v) => {
                proof {
                    assert(all[k] is Some);
                    assert(all[k]->0 == v);
                }
                let ghost out0 = out@;
                out.push(v);
                proof {
                    assert forall|i: int|
                        0 <= i < out@.len() implies all[i] is Some && all[i]->0 == out@[i] by {
                        if i < out0.len() {
                            assert(all[i] is Some && all[i]->0 == out0[i]);
                            assert(out@[i] == out0[i]);
                        } else {
                            assert(i == k);
                            assert(out@[i] == v);
                        }
                    }
                }
            },
            Option::None => {
                proof {
                    assert(all[k] is None);
                    assert(!(forall|i: int|
                        0 <= i < all.len() ==> (#[trigger] all[i]) is Some)) by {
                        assert(0 <= k < all.len() && !(all[k] is Some));
                    }
                }
                return Option::None;
            },
        }
    }
    proof {
        assert(out@ =~= all.map_values(|p: Option<T>| p->0));
    }
    Option::Some(out)
}

/// The text injected into the rendering surface after a successful
/// invocation: a script that sets the output element's displayed value to the
/// result's textual form.
pub open spec fn spec_output_script(result_text: Seq<char>) -> Seq<char> {
    "document.getElementById('output').value = "@ + result_text
}

/// Builds the output-update script for a result's textual form.
pub fn output_script(result_text: &str) -> (r: String)
    ensures
        r@ == spec_output_script(result_text@),
{
    let mut r = "document.getElementById('output').value = ".to_owned();
    r.append(result_text);
    r
}

/// The message the rendering surface sends on submission: the value texts
/// joined by the reserved separator.
pub open spec fn spec_join(parts: Seq<Seq<char>>) -> Seq<char>
    decreases parts.len(),
{
    if parts.len() == 0 {
        Seq::empty()
    } else if parts.len() == 1 {
        parts[0]
    } else {
        parts[0] + seq![','] + spec_join(parts.drop_first())
    }
}

proof fn lemma_split_no_separator(s: Seq<char>)
    requires
        !s.contains(','),
    ensures
        spec_split(s) == seq![s],
    decreases s.len(),
{
    if s.len() == 0 {
        assert(spec_split(s) =~~= seq![s]);
    } else {
        assert(s[0] != ',') by {
            if s[0] == ',' {
                assert(s.contains(','));
            }
        }
        assert(!s.drop_first().contains(',')) by {
            if s.drop_first().contains(',') {
                let k = choose|k: int| 0 <= k < s.drop_first().len() && s.drop_first()[k] == ',';
                assert(s[k + 1] == ',');
                assert(s.contains(','));
            }
        }
        lemma_split_no_separator(s.drop_first());
        assert(seq![s[0]] + s.drop_first() =~= s);
        assert(spec_split(s) =~~= seq![s]);
    }
}

proof fn lemma_split_after_separator(a: Seq<char>, t: Seq<char>)
    requires
        !a.contains(','),
    ensures
        spec_split(a + seq![','] + t) == seq![a] + spec_split(t),
    decreases a.len(),
{
    let s = a + seq![','] + t;
    if a.len() == 0 {
        assert(s[0] == ',');
        assert(s.drop_first() =~= t);
        assert(spec_split(s) =~~= seq![a] + spec_split(t));
    } else {
        assert(s[0] == a[0]);
        assert(a[0] != ',') by {
            if a[0] == ',' {
                assert(a.contains(','));
            }
        }
        assert(!a.drop_first().contains(',')) by {
            if a.drop_first().contains(',') {
                let k = choose|k: int|
                    0 <= k < a.drop_first().len() && a.drop_first()[k] == ',';
                assert(a[k + 1] == ',');
                assert(a.contains(','));
            }
        }
        lemma_split_after_separator(a.drop_first(), t);
        assert(s.drop_first() =~= a.drop_first() + seq![','] + t);
        let rest = spec_split(s.drop_first());
        assert(seq![s[0]] + rest[0] =~= a);
        assert(rest.drop_first() =~= spec_split(t));
        assert(spec_split(s) =~~= seq![a] + spec_split(t));
    }
}

/// Round trip of the submission encoding: a message built by joining value
/// texts with the reserved separator splits back into exactly those texts, as
/// long as no text contains the separator — which is what the generated
/// document's submit script relies on to preserve index correspondence.
pub proof fn lemma_join_split_round_trip(parts: Seq<Seq<char>>)
    requires
        parts.len() >= 1,
        forall|i: int| 0 <= i < parts.len() ==> !(#[trigger] parts[i]).contains(','),
    ensures
        spec_split(spec_join(parts)) == parts,
    decreases parts.len(),
{
    if parts.len() == 1 {
        lemma_split_no_separator(parts[0]);
        assert(spec_split(spec_join(parts)) =~~= parts);
    } else {
        lemma_join_split_round_trip(parts.drop_first());
        lemma_split_after_separator(parts[0], spec_join(parts.drop_first()));
        assert(spec_split(spec_join(parts)) =~~= parts);
    }
}

} // verus!
