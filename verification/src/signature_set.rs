//! The signatures of one file: each text once, in the byte order.

use crate::text::{
    compare, lemma_str_lt_asymmetric, lemma_str_lt_irreflexive, lemma_str_lt_transitive, str_le,
    str_lt, texts, Order,
};
use vstd::prelude::*;

verus! {

/// Every element comes strictly before every later one.
pub open spec fn strictly_sorted(s: Seq<Seq<char>>) -> bool {
    forall|i: int, j: int| 0 <= i < j < s.len() ==> str_lt(#[trigger] s[i], #[trigger] s[j])
}

/// Every element comes before every later one or equals it.
pub open spec fn sorted(s: Seq<Seq<char>>) -> bool {
    forall|i: int, j: int| 0 <= i < j < s.len() ==> str_le(#[trigger] s[i], #[trigger] s[j])
}

/// A strictly sorted sequence holds no text twice.
pub proof fn lemma_strictly_sorted_no_duplicates(s: Seq<Seq<char>>)
    requires
        strictly_sorted(s),
    ensures
        s.no_duplicates(),
        sorted(s),
{
    assert forall|i: int, j: int| 0 <= i < s.len() && 0 <= j < s.len() && i != j implies s[i]
        != s[j] by {
        if i < j {
            lemma_str_lt_asymmetric(s[i], s[j]);
        } else {
            lemma_str_lt_asymmetric(s[j], s[i]);
        }
    }
}

/// There is only one way to list a set of texts in strictly increasing order.
pub proof fn lemma_strictly_sorted_unique(a: Seq<Seq<char>>, b: Seq<Seq<char>>)
    requires
        strictly_sorted(a),
        strictly_sorted(b),
        a.to_set() == b.to_set(),
    ensures
        a == b,
    decreases a.len(),
{
    if a.len() == 0 {
        if b.len() > 0 {
            assert(b.to_set().contains(b[0]));
            assert(a.to_set().contains(b[0]));
        }
        assert(a =~= b);
    } else if b.len() == 0 {
        assert(a.to_set().contains(a[0]));
        assert(b.to_set().contains(a[0]));
    } else {
        // The first element of each is the least of the common set.
        assert(a.to_set().contains(a[0]));
        assert(b.to_set().contains(a[0]));
        let ia = choose|k: int| 0 <= k < b.len() && b[k] == a[0];
        assert(b.to_set().contains(b[0]));
        assert(a.to_set().contains(b[0]));
        let ib = choose|k: int| 0 <= k < a.len() && a[k] == b[0];
        if ia > 0 && ib > 0 {
            lemma_str_lt_transitive(a[0], a[ib], b[ia]);
            lemma_str_lt_irreflexive(a[0]);
        }
        if ia > 0 {
            lemma_str_lt_asymmetric(b[0], b[ia]);
        }
        if ib > 0 {
            lemma_str_lt_asymmetric(a[0], a[ib]);
        }
        assert(a[0] == b[0]);
        let ra = a.drop_first();
        let rb = b.drop_first();
        assert forall|x: Seq<char>| ra.to_set().contains(x) <==> rb.to_set().contains(x) by {
            if ra.contains(x) {
                let k = choose|k: int| 0 <= k < ra.len() && ra[k] == x;
                assert(a[k + 1] == x);
                lemma_str_lt_asymmetric(a[0], a[k + 1]);
                assert(a.to_set().contains(x));
                assert(b.contains(x));
                let m = choose|m: int| 0 <= m < b.len() && b[m] == x;
                assert(m > 0);
                assert(rb[m - 1] == x);
            }
            if rb.contains(x) {
                let k = choose|k: int| 0 <= k < rb.len() && rb[k] == x;
                assert(b[k + 1] == x);
                lemma_str_lt_asymmetric(b[0], b[k + 1]);
                assert(b.to_set().contains(x));
                assert(a.contains(x));
                let m = choose|m: int| 0 <= m < a.len() && a[m] == x;
                assert(m > 0);
                assert(ra[m - 1] == x);
            }
        }
        assert(ra.to_set() =~= rb.to_set());
        assert forall|i: int, j: int| 0 <= i < j < ra.len() implies str_lt(
            #[trigger] ra[i],
            #[trigger] ra[j],
        ) by {
            assert(ra[i] == a[i + 1] && ra[j] == a[j + 1]);
        }
        assert forall|i: int, j: int| 0 <= i < j < rb.len() implies str_lt(
            #[trigger] rb[i],
            #[trigger] rb[j],
        ) by {
            assert(rb[i] == b[i + 1] && rb[j] == b[j + 1]);
        }
        lemma_strictly_sorted_unique(ra, rb);
        assert(a =~= seq![a[0]] + ra);
        assert(b =~= seq![b[0]] + rb);
    }
}

/// The texts of a set listed in strictly increasing order.
pub open spec fn sorted_texts(set: Set<Seq<char>>) -> Seq<Seq<char>> {
    choose|s: Seq<Seq<char>>| strictly_sorted(s) && s.to_set() == set
}

/// A strictly sorted sequence is the sorted listing of its own elements.
pub proof fn lemma_sorted_texts(s: Seq<Seq<char>>)
    requires
        strictly_sorted(s),
    ensures
        sorted_texts(s.to_set()) == s,
{
    let set = s.to_set();
    assert(strictly_sorted(s) && s.to_set() == set);
    lemma_strictly_sorted_unique(sorted_texts(set), s);
}

/// A set of texts kept in strictly increasing byte order.
pub struct SignatureSet {
    items: Vec<String>,
}

impl View for SignatureSet {
    type V = Set<Seq<char>>;

    closed spec fn view(&self) -> Set<Seq<char>> {
        texts(self.items).to_set()
    }
}

impl SignatureSet {
    /// The invariant of the type: the texts are held in strictly increasing
    /// order.
    pub closed spec fn wf(&self) -> bool {
        strictly_sorted(texts(self.items))
    }

    /// An empty set.
    pub fn new() -> (s: SignatureSet)
        ensures
            s.wf(),
            s@ == Set::<Seq<char>>::empty(),
    {
        let s = SignatureSet { items: Vec::new() };
        assert(texts(s.items) =~= Seq::empty());
        assert(texts(s.items).to_set() =~= Set::empty());
        s
    }

    /// The number of texts in the set.
    pub fn len(&self) -> (n: usize)
        requires
            self.wf(),
        ensures
            n == self@.len(),
            self@.finite(),
    {
        proof {
            lemma_strictly_sorted_no_duplicates(texts(self.items));
            texts(self.items).unique_seq_to_set();
        }
        self.items.len()
    }

    /// Adds `item` unless the set already holds the same text.
    pub fn insert(&mut self, item: String)
        requires
            old(self).wf(),
        ensures
            final(self).wf(),
            final(self)@ == old(self)@.insert(item@),
    {
        let ghost before = texts(self.items);
        let mut low: usize = 0;
        let mut high: usize = self.items.len();
        while low < high
            invariant
                low <= high <= self.items.len(),
                texts(self.items) == before,
                strictly_sorted(before),
                forall|k: int| 0 <= k < low ==> str_lt(#[trigger] before[k], item@),
                high < before.len() ==> str_lt(item@, before[high as int]),
            decreases high - low,
        {
            let middle = low + (high - low) / 2;
            assert(before[middle as int] == self.items[middle as int]@);
            match compare(self.items[middle].as_str(), item.as_str()) {
                Order::Less => {
                    proof {
                        assert forall|k: int| 0 <= k < middle + 1 implies str_lt(
                            #[trigger] before[k],
                            item@,
                        ) by {
                            if k < middle {
                                lemma_str_lt_transitive(before[k], before[middle as int], item@);
                            }
                        }
                    }
                    low = middle + 1;
                },
                Order::Equal => {
                    assert(before.to_set().contains(item@));
                    assert(before.to_set().insert(item@) =~= before.to_set());
                    return ;
                },
                Order::Greater => {
                    high = middle;
                },
            }
        }
        let ghost at = low as int;
        self.items.insert(low, item);
        proof {
            let after = texts(self.items);
            assert(after =~= before.insert(at, item@));
            assert forall|a: int, b: int| 0 <= a < b < after.len() implies str_lt(
                #[trigger] after[a],
                #[trigger] after[b],
            ) by {
                if b < at {
                } else if b == at {
                } else if a < at {
                    if b - 1 > at {
                        lemma_str_lt_transitive(item@, before[at], before[b - 1]);
                    }
                    lemma_str_lt_transitive(before[a], item@, before[b - 1]);
                } else if a == at {
                    if b - 1 > at {
                        lemma_str_lt_transitive(item@, before[at], before[b - 1]);
                    }
                } else {
                }
            }
            assert forall|x: Seq<char>| after.to_set().contains(x) <==> before.to_set().insert(
                item@,
            ).contains(x) by {
                if after.contains(x) {
                    let k = choose|k: int| 0 <= k < after.len() && after[k] == x;
                    if k < at {
                        assert(before[k] == x);
                    } else if k > at {
                        assert(before[k - 1] == x);
                    }
                }
                if before.contains(x) {
                    let k = choose|k: int| 0 <= k < before.len() && before[k] == x;
                    if k < at {
                        assert(after[k] == x);
                    } else {
                        assert(after[k + 1] == x);
                    }
                }
                if x == item@ {
                    assert(after[at] == x);
                }
            }
            assert(after.to_set() =~= before.to_set().insert(item@));
        }
    }

    /// The texts of the set, in strictly increasing order.
    pub fn into_vec(self) -> (v: Vec<String>)
        requires
            self.wf(),
        ensures
            strictly_sorted(texts(v)),
            texts(v).to_set() == self@,
    {
        self.items
    }
}

} // verus!
