//! Gathering the signatures of the matches of a query: each text once, in
//! byte order, whatever the order the matches were found in.

use crate::extractor::captures::Capture;
use crate::extractor::css::{create_css_signature, css_signature_of};
use crate::extractor::js_ts::{create_signature, signature_of};
use crate::extractor::syntax::groups_view;
use crate::signature_set::{lemma_sorted_texts, sorted_texts, strictly_sorted, SignatureSet};
use crate::text::texts;
use vstd::prelude::*;

verus! {

/// The two families of grammars, each with its own rules for what a capture
/// group stands for.
#[derive(Debug, Clone, Copy, PartialEq, Eq, Structural)]
pub enum Dialect {
    Script,
    Style,
}

/// The signature text of a capture group by the rules of the dialect, if
/// the group stands for anything.
pub open spec fn group_signature(
    dialect: Dialect,
    names: Seq<Seq<char>>,
    group: Seq<Capture>,
    code: Seq<char>,
) -> Option<Seq<char>> {
    match dialect {
        Dialect::Script => signature_of(names, group, code),
        Dialect::Style => css_signature_of(names, group, code),
    }
}

/// The signature texts of all the groups.
pub open spec fn collected(
    dialect: Dialect,
    names: Seq<Seq<char>>,
    groups: Seq<Seq<Capture>>,
    code: Seq<char>,
) -> Set<Seq<char>> {
    Set::new(
        |s: Seq<char>|
            exists|i: int|
                0 <= i < groups.len() && group_signature(
                    dialect,
                    names,
                    #[trigger] groups[i],
                    code,
                ) == Some(s),
    )
}

/// One group more adds its signature, if it has one, and nothing else.
pub proof fn lemma_collected_next(
    dialect: Dialect,
    names: Seq<Seq<char>>,
    groups: Seq<Seq<Capture>>,
    code: Seq<char>,
    i: int,
)
    requires
        0 <= i < groups.len(),
    ensures
        collected(dialect, names, groups.take(i + 1), code) == (match group_signature(
            dialect,
            names,
            groups[i],
            code,
        ) {
            Some(s) => collected(dialect, names, groups.take(i), code).insert(s),
            None => collected(dialect, names, groups.take(i), code),
        }),
{
    let before = collected(dialect, names, groups.take(i), code);
    let now = collected(dialect, names, groups.take(i + 1), code);
    let added = group_signature(dialect, names, groups[i], code);
    let expected = match added {
        Some(s) => before.insert(s),
        None => before,
    };
    assert forall|s: Seq<char>| now.contains(s) <==> expected.contains(s) by {
        if now.contains(s) {
            let k = choose|k: int|
                0 <= k < groups.take(i + 1).len() && group_signature(
                    dialect,
                    names,
                    #[trigger] groups.take(i + 1)[k],
                    code,
                ) == Some(s);
            if k < i {
                assert(groups.take(i)[k] == groups.take(i + 1)[k]);
            }
        }
        if before.contains(s) {
            let k = choose|k: int|
                0 <= k < groups.take(i).len() && group_signature(
                    dialect,
                    names,
                    #[trigger] groups.take(i)[k],
                    code,
                ) == Some(s);
            assert(groups.take(i + 1)[k] == groups.take(i)[k]);
        }
        if added == Some(s) {
            assert(groups.take(i + 1)[i] == groups[i]);
        }
    }
    assert(now =~= expected);
}

/// The order in which the groups come does not matter to what is collected.
pub proof fn lemma_collected_any_order(
    dialect: Dialect,
    names: Seq<Seq<char>>,
    first: Seq<Seq<Capture>>,
    second: Seq<Seq<Capture>>,
    code: Seq<char>,
)
    requires
        forall|g: Seq<Capture>| first.contains(g) <==> second.contains(g),
    ensures
        collected(dialect, names, first, code) == collected(dialect, names, second, code),
{
    let from_first = collected(dialect, names, first, code);
    let from_second = collected(dialect, names, second, code);
    assert forall|s: Seq<char>| from_first.contains(s) <==> from_second.contains(s) by {
        if from_first.contains(s) {
            let i = choose|i: int|
                0 <= i < first.len() && group_signature(dialect, names, #[trigger] first[i], code)
                    == Some(s);
            assert(first.contains(first[i]));
            let j = choose|j: int| 0 <= j < second.len() && second[j] == first[i];
            assert(group_signature(dialect, names, second[j], code) == Some(s));
        }
        if from_second.contains(s) {
            let i = choose|i: int|
                0 <= i < second.len() && group_signature(
                    dialect,
                    names,
                    #[trigger] second[i],
                    code,
                ) == Some(s);
            assert(second.contains(second[i]));
            let j = choose|j: int| 0 <= j < first.len() && first[j] == second[i];
            assert(group_signature(dialect, names, first[j], code) == Some(s));
        }
    }
    assert(from_first =~= from_second);
}

/// The signatures of the matches of a query by the rules of the dialect,
/// each once and in strictly increasing byte order. `names` are the capture
/// names of the query and `groups` the captures of each match.
pub fn gather(
    dialect: Dialect,
    names: &Vec<String>,
    groups: &Vec<Vec<Capture>>,
    code: &str,
) -> (r: Vec<String>)
    ensures
        strictly_sorted(texts(r)),
        texts(r).to_set() == collected(dialect, texts(*names), groups_view(*groups), code@),
        texts(r) == sorted_texts(
            collected(dialect, texts(*names), groups_view(*groups), code@),
        ),
{
    let mut signatures = SignatureSet::new();
    let ghost all = groups_view(*groups);
    assert(collected(dialect, texts(*names), all.take(0), code@) =~= Set::<Seq<char>>::empty());
    for i in 0..groups.len()
        invariant
            signatures.wf(),
            all == groups_view(*groups),
            signatures@ == collected(dialect, texts(*names), all.take(i as int), code@),
    {
        proof {
            assert(all[i as int] == groups[i as int]@);
            lemma_collected_next(dialect, texts(*names), all, code@, i as int);
        }
        let signature = match dialect {
            Dialect::Script => create_signature(names, &groups[i], code),
            Dialect::Style => create_css_signature(names, &groups[i], code),
        };
        if let Some(signature) = signature {
            signatures.insert(signature);
        }
    }
    proof {
        assert(all.take(groups.len() as int) =~= all);
    }
    let r = signatures.into_vec();
    proof {
        lemma_sorted_texts(texts(r));
    }
    r
}

} // verus!
