//! Capture groups as plain values: which captures a match bound, under which
//! names, and the source text each one spans.

use crate::text::{same_text, texts, trim, trimmed};
use vstd::prelude::*;
use vstd::string::StringSliceAdditionalSpecFns;
use vstd::utf8::*;

verus! {

/// One captured node of a match: the capture name it was bound to, as an
/// index into the query's capture names, and the bytes of the source it spans.
#[derive(Debug, Clone, Copy, PartialEq, Eq, Structural)]
pub struct Capture {
    pub index: u32,
    pub start: usize,
    pub end: usize,
}

/// Whether `capture` was bound under `name`. An index outside the list of
/// names stands for no name.
pub open spec fn is_named(names: Seq<Seq<char>>, capture: Capture, name: Seq<char>) -> bool {
    capture.index < names.len() && names[capture.index as int] == name
}

/// The first capture of `group` bound under `name`.
pub open spec fn find_capture(names: Seq<Seq<char>>, group: Seq<Capture>, name: Seq<char>)
    -> Option<Capture>
    decreases group.len(),
{
    if group.len() == 0 {
        None
    } else if is_named(names, group[0], name) {
        Some(group[0])
    } else {
        find_capture(names, group.drop_first(), name)
    }
}

/// Whether some capture of the group is bound under `name`.
pub open spec fn binds(names: Seq<Seq<char>>, group: Seq<Capture>, name: Seq<char>) -> bool {
    exists|i: int| 0 <= i < group.len() && is_named(names, #[trigger] group[i], name)
}

/// A capture is found exactly when some capture of the group bears the name.
pub proof fn lemma_find_capture(names: Seq<Seq<char>>, group: Seq<Capture>, name: Seq<char>)
    ensures
        find_capture(names, group, name) is Some <==> binds(names, group, name),
    decreases group.len(),
{
    if group.len() > 0 {
        let rest = group.drop_first();
        lemma_find_capture(names, rest, name);
        if !is_named(names, group[0], name) {
            if binds(names, rest, name) {
                let i = choose|i: int|
                    0 <= i < rest.len() && is_named(names, #[trigger] rest[i], name);
                assert(group[i + 1] == rest[i]);
            }
            if binds(names, group, name) {
                let i = choose|i: int|
                    0 <= i < group.len() && is_named(names, #[trigger] group[i], name);
                assert(rest[i - 1] == group[i]);
            }
        }
    }
}

/// Whether a name is bound does not depend on the order of the captures.
pub proof fn lemma_binds_any_order(
    names: Seq<Seq<char>>,
    first: Seq<Capture>,
    second: Seq<Capture>,
    name: Seq<char>,
)
    requires
        forall|c: Capture| first.contains(c) <==> second.contains(c),
    ensures
        binds(names, first, name) == binds(names, second, name),
{
    if binds(names, first, name) {
        let i = choose|i: int| 0 <= i < first.len() && is_named(names, #[trigger] first[i], name);
        assert(first.contains(first[i]));
        let j = choose|j: int| 0 <= j < second.len() && second[j] == first[i];
        assert(is_named(names, second[j], name));
    }
    if binds(names, second, name) {
        let i = choose|i: int|
            0 <= i < second.len() && is_named(names, #[trigger] second[i], name);
        assert(second.contains(second[i]));
        let j = choose|j: int| 0 <= j < first.len() && first[j] == second[i];
        assert(is_named(names, first[j], name));
    }
}

/// The name a capture was bound under, if its index stands for one.
pub open spec fn name_of(names: Seq<Seq<char>>, capture: Capture) -> Option<Seq<char>> {
    if capture.index < names.len() {
        Some(names[capture.index as int])
    } else {
        None
    }
}

/// Whether no name is bound by two captures of the group.
pub open spec fn names_bound_once(names: Seq<Seq<char>>, group: Seq<Capture>) -> bool {
    forall|i: int, j: int|
        0 <= i < j < group.len() && name_of(names, #[trigger] group[i]) is Some ==> name_of(
            names,
            group[i],
        ) != name_of(names, #[trigger] group[j])
}

/// The capture that is found is one of the group and bears the name.
pub proof fn lemma_found_is_named(names: Seq<Seq<char>>, group: Seq<Capture>, name: Seq<char>)
    ensures
        find_capture(names, group, name) matches Some(c) ==> group.contains(c) && is_named(
            names,
            c,
            name,
        ),
    decreases group.len(),
{
    if group.len() > 0 {
        if is_named(names, group[0], name) {
            assert(group[0] == group[0]);
        } else {
            let rest = group.drop_first();
            lemma_found_is_named(names, rest, name);
            if find_capture(names, rest, name) is Some {
                let c = find_capture(names, rest, name)->0;
                let k = choose|k: int| 0 <= k < rest.len() && rest[k] == c;
                assert(group[k + 1] == c);
            }
        }
    }
}

/// Where no name is bound twice, the capture found under a name does not
/// depend on the order of the captures.
pub proof fn lemma_find_any_order(
    names: Seq<Seq<char>>,
    first: Seq<Capture>,
    second: Seq<Capture>,
    name: Seq<char>,
)
    requires
        forall|c: Capture| first.contains(c) <==> second.contains(c),
        names_bound_once(names, first),
    ensures
        find_capture(names, first, name) == find_capture(names, second, name),
{
    lemma_find_capture(names, first, name);
    lemma_find_capture(names, second, name);
    lemma_binds_any_order(names, first, second, name);
    lemma_found_is_named(names, first, name);
    lemma_found_is_named(names, second, name);
    if find_capture(names, first, name) is Some {
        let a = find_capture(names, first, name)->0;
        let b = find_capture(names, second, name)->0;
        assert(first.contains(b));
        let i = choose|i: int| 0 <= i < first.len() && first[i] == a;
        let j = choose|j: int| 0 <= j < first.len() && first[j] == b;
        assert(name_of(names, first[i]) == Some(name));
        assert(name_of(names, first[j]) == Some(name));
        if i < j {
            assert(name_of(names, first[i]) != name_of(names, first[j]));
        }
        if j < i {
            assert(name_of(names, first[j]) != name_of(names, first[i]));
        }
    }
}

/// The source text between two byte offsets, without the whitespace around
/// it. Offsets that do not delimit a slice of the text (out of bounds, in the
/// wrong order or inside a character) give the empty text.
pub open spec fn text_at(code: Seq<char>, start: int, end: int) -> Seq<char> {
    let bytes = encode_utf8(code);
    if 0 <= start <= end <= bytes.len() && is_char_boundary(bytes, start) && is_char_boundary(
        bytes,
        end,
    ) {
        trimmed(decode_utf8(bytes.subrange(start, end)))
    } else {
        Seq::empty()
    }
}

/// The text of the source that a capture spans.
pub open spec fn capture_text(code: Seq<char>, capture: Capture) -> Seq<char> {
    text_at(code, capture.start as int, capture.end as int)
}

/// Slices `code` by byte offsets and trims the whitespace around the slice;
/// gives the empty text where the offsets do not delimit a slice.
pub fn extract_text(code: &str, start: usize, end: usize) -> (r: &str)
    ensures
        r@ == text_at(code@, start as int, end as int),
{
    broadcast use vstd::utf8::group_utf8_lib;

    let len = code.as_bytes().len();
    if start <= end && end <= len && code.is_char_boundary(start) && code.is_char_boundary(end) {
        let ghost bytes = encode_utf8(code@);
        let (head, _) = code.split_at(end);
        proof {
            let hb = bytes.subrange(0, end as int);
            assert(valid_utf8(hb));
            if start < end {
                assert(hb[start as int] == bytes[start as int]);
                is_char_boundary_iff_not_is_continuation_byte(bytes, start as int);
                is_char_boundary_iff_not_is_continuation_byte(hb, start as int);
            } else {
                is_char_boundary_start_end_of_seq(hb);
            }
            assert(head.spec_bytes() == hb);
        }
        let (_, body) = head.split_at(start);
        proof {
            let hb = bytes.subrange(0, end as int);
            assert(hb.subrange(start as int, hb.len() as int) =~= bytes.subrange(
                start as int,
                end as int,
            ));
            assert(encode_utf8(body@) == bytes.subrange(start as int, end as int));
            encode_utf8_decode_utf8(body@);
        }
        trim(body)
    } else {
        proof {
            reveal_strlit("");
        }
        let empty = "";
        assert(empty@ =~= Seq::<char>::empty());
        empty
    }
}

/// The captures of one match, with the names they can be looked up by.
pub struct CaptureMap<'a> {
    pub names: &'a Vec<String>,
    pub captures: &'a Vec<Capture>,
}

impl<'a> CaptureMap<'a> {
    /// The first capture of the match bound under `name`.
    pub open spec fn lookup(&self, name: Seq<char>) -> Option<Capture> {
        find_capture(texts(*self.names), self.captures@, name)
    }

    pub fn new(names: &'a Vec<String>, captures: &'a Vec<Capture>) -> (map: Self)
        ensures
            map.names == names,
            map.captures == captures,
    {
        CaptureMap { names, captures }
    }

    /// The first capture bound under `name`, if there is one.
    pub fn get_node(&self, name: &str) -> (r: Option<Capture>)
        ensures
            r == self.lookup(name@),
    {
        let ghost names = texts(*self.names);
        let ghost group = self.captures@;
        let mut i: usize = 0;
        assert(group.skip(0) =~= group);
        while i < self.captures.len()
            invariant
                i <= self.captures.len(),
                names == texts(*self.names),
                group == self.captures@,
                find_capture(names, group, name@) == find_capture(
                    names,
                    group.skip(i as int),
                    name@,
                ),
            decreases self.captures.len() - i,
        {
            let capture = self.captures[i];
            let k = capture.index as usize;
            proof {
                assert(group.skip(i as int)[0] == capture);
                assert(group.skip(i as int).drop_first() =~= group.skip(i + 1));
            }
            if k < self.names.len() && same_text(self.names[k].as_str(), name) {
                return Some(capture);
            }
            i += 1;
        }
        proof {
            assert(group.skip(i as int).len() == 0);
        }
        None
    }

    /// Whether some capture is bound under `name`.
    pub fn has_capture(&self, name: &str) -> (r: bool)
        ensures
            r == self.lookup(name@) is Some,
    {
        self.get_node(name).is_some()
    }
}

} // verus!
