//! Laws of the request envelope: where the member that it carries stands, and what is said of an
//! envelope that does not hold it.
use vstd::prelude::*;
use vstd::utf8::encode_utf8;

use crate::codec::{
    base64url, base64url_decoded, json_literal, json_object, json_object_end, json_object_only,
    json_singleton, json_string, json_text, literal_end,
};
use crate::envelope::{
    after_spaces, blanked, envelope, envelope_content, fields, is_field, key_may_start, key_spans,
    line_feeds, line_start, object_content, opened, past_brace, place, renamed,
};
use crate::error::ErrorView;
use crate::grammar_laws::{may_be_written, written};
use crate::text::{decimal, trimmed};

verus! {

/// A string literal.
pub open spec fn literal(value: Seq<u8>, marked: Seq<bool>) -> Seq<u8> {
    seq![0x22u8] + written(value, marked) + seq![0x22u8]
}

proof fn lemma_literal_end(before: Seq<u8>, value: Seq<u8>, marked: Seq<bool>, after: Seq<u8>)
    requires
        may_be_written(value, marked),
    ensures
        literal_end(
            before + written(value, marked) + seq![0x22u8] + after,
            before.len() as int,
        ) == Some((before.len() + written(value, marked).len() + 1) as int),
    decreases value.len(),
{
    let w = written(value, marked);
    let b = before + w + seq![0x22u8] + after;
    let i = before.len() as int;
    if value.len() == 0 {
        assert(b[i] == 0x22);
    } else {
        let v = value.skip(1);
        let m = marked.skip(1);
        assert forall|j: int| 0 <= j < v.len() && (#[trigger] v[j] == 0x22 || v[j] == 0x5c) implies
            m[j] by {
            assert(v[j] == value[j + 1]);
        }
        let n: int = if marked[0] {
            2
        } else {
            1
        };
        let start = before + w.take(n);
        assert(w =~= w.take(n) + written(v, m));
        assert(b =~= start + written(v, m) + seq![0x22u8] + after);
        assert(b[i] == w[0]);
        lemma_literal_end(start, v, m, after);
    }
}

/// A string literal ends at its closing quote, whatever is escaped in it and whatever stands
/// before and after it.
pub proof fn literals_end_at_their_quote(
    before: Seq<u8>,
    value: Seq<u8>,
    marked: Seq<bool>,
    after: Seq<u8>,
)
    requires
        may_be_written(value, marked),
    ensures
        literal_end(before + literal(value, marked) + after, (before.len() + 1) as int) == Some(
            (before.len() + literal(value, marked).len()) as int,
        ),
{
    let start = before + seq![0x22u8];
    assert(before + literal(value, marked) + after =~= start + written(value, marked)
        + seq![0x22u8] + after);
    lemma_literal_end(start, value, marked, after);
}

proof fn lemma_unfinished(before: Seq<u8>, value: Seq<u8>, marked: Seq<bool>, slash: bool)
    requires
        may_be_written(value, marked),
    ensures
        literal_end(
            before + written(value, marked) + if slash {
                seq![0x5cu8]
            } else {
                Seq::empty()
            },
            before.len() as int,
        ) is None,
    decreases value.len(),
{
    let w = written(value, marked);
    let tail = if slash {
        seq![0x5cu8]
    } else {
        Seq::empty()
    };
    let b = before + w + tail;
    let i = before.len() as int;
    if value.len() == 0 {
        if slash {
            assert(b[i] == 0x5c);
        }
    } else {
        let v = value.skip(1);
        let m = marked.skip(1);
        assert forall|j: int| 0 <= j < v.len() && (#[trigger] v[j] == 0x22 || v[j] == 0x5c) implies
            m[j] by {
            assert(v[j] == value[j + 1]);
        }
        let n: int = if marked[0] {
            2
        } else {
            1
        };
        let start = before + w.take(n);
        assert(w =~= w.take(n) + written(v, m));
        assert(b =~= start + written(v, m) + tail);
        assert(b[i] == w[0]);
        lemma_unfinished(start, v, m, slash);
    }
}

/// A string literal without a closing quote has no end, whatever stands in it.
pub proof fn unfinished_literals_have_no_end(
    before: Seq<u8>,
    value: Seq<u8>,
    marked: Seq<bool>,
)
    requires
        may_be_written(value, marked),
    ensures
        literal_end(
            before + seq![0x22u8] + written(value, marked),
            (before.len() + 1) as int,
        ) is None,
        literal_end(
            before + seq![0x22u8] + written(value, marked) + seq![0x5cu8],
            (before.len() + 1) as int,
        ) is None,
{
    let start = before + seq![0x22u8];
    lemma_unfinished(start, value, marked, false);
    lemma_unfinished(start, value, marked, true);
    assert(start + written(value, marked) + Seq::<u8>::empty() =~= start + written(value, marked));
}

/// Brackets are counted, wherever they stand: only where one brace is open can a key follow, first
/// behind that brace and then behind a comma. A literal without an end ends the search.
pub proof fn brackets_are_counted(b: Seq<u8>, i: int, depth: nat, fresh: bool)
    requires
        0 <= i < b.len(),
    ensures
        b[i] == 0x7b ==> key_spans(b, i, depth, fresh) == key_spans(
            b,
            i + 1,
            depth + 1,
            depth == 0,
        ),
        b[i] == 0x5b ==> key_spans(b, i, depth, fresh) == key_spans(b, i + 1, depth + 1, false),
        b[i] == 0x7d || b[i] == 0x5d ==> key_spans(b, i, depth + 1, fresh) == key_spans(
            b,
            i + 1,
            depth,
            false,
        ),
        b[i] == 0x7d || b[i] == 0x5d ==> key_spans(b, i, 0, fresh) == key_spans(
            b,
            i + 1,
            0,
            false,
        ),
        b[i] == 0x2c ==> key_spans(b, i, depth, fresh) == key_spans(b, i + 1, depth, true),
        b[i] == 0x22 && literal_end(b, i + 1) is None ==> key_spans(b, i, depth, fresh) == Seq::<
            (int, int),
        >::empty(),
        b[i] == 0x22 ==> (literal_end(b, i + 1) matches Some(end) ==> key_spans(
            b,
            i,
            depth,
            fresh,
        ) == (if depth == 1 && fresh {
            seq![(i, end)]
        } else {
            Seq::empty()
        }) + key_spans(b, end, depth, false)),
        key_spans(b, b.len() as int, depth, fresh) == Seq::<(int, int)>::empty(),
{
    if b[i] == 0x22 {
        if let Some(end) = literal_end(b, i + 1) {
            let rest = key_spans(b, end, depth, false);
            assert(Seq::<(int, int)>::empty() + rest =~= rest);
        }
    }
}

/// Whether bytes can stand as the value of a member without being taken for keys, wherever they
/// stand.
pub open spec fn is_opaque(v: Seq<u8>) -> bool {
    forall|before: Seq<u8>, after: Seq<u8>, depth: nat| #[trigger]
        passes(before, v, after, depth)
}

/// Whether no key of the outermost object is found in `v`, where no key may start before it.
pub open spec fn passes(before: Seq<u8>, v: Seq<u8>, after: Seq<u8>, depth: nat) -> bool {
    depth > 0 ==> key_spans(before + v + after, before.len() as int, depth, false) == key_spans(
        before + v + after,
        (before.len() + v.len()) as int,
        depth,
        false,
    )
}

/// A string is not taken for a key where none may start.
pub proof fn strings_are_opaque(value: Seq<u8>, marked: Seq<bool>)
    requires
        may_be_written(value, marked),
    ensures
        is_opaque(literal(value, marked)),
{
    let v = literal(value, marked);
    assert forall|before: Seq<u8>, after: Seq<u8>, depth: nat| #[trigger]
        passes(before, v, after, depth) by {
        literals_end_at_their_quote(before, value, marked, after);
        assert((before + v + after)[before.len() as int] == 0x22);
    }
}

/// Whitespace changes nothing about which keys follow, and after any other byte that is no quote,
/// bracket or comma no key starts.
pub proof fn other_bytes_are_passed_over(b: Seq<u8>, i: int, depth: nat, fresh: bool)
    requires
        0 <= i < b.len(),
        b[i] != 0x22 && b[i] != 0x7b && b[i] != 0x7d && b[i] != 0x5b && b[i] != 0x5d && b[i]
            != 0x2c,
    ensures
        key_spans(b, i, depth, fresh) == key_spans(
            b,
            i + 1,
            depth,
            fresh && (b[i] == 0x20 || b[i] == 0x09 || b[i] == 0x0a || b[i] == 0x0d),
        ),
{
}

proof fn lemma_plain(b: Seq<u8>, from: int, to: int, depth: nat)
    requires
        0 <= from <= to <= b.len(),
        forall|i: int|
            from <= i < to ==> #[trigger] b[i] != 0x22 && b[i] != 0x7b && b[i] != 0x7d && b[i]
                != 0x5b && b[i] != 0x5d && b[i] != 0x2c,
    ensures
        key_spans(b, from, depth, false) == key_spans(b, to, depth, false),
    decreases to - from,
{
    if from < to {
        other_bytes_are_passed_over(b, from, depth, false);
        lemma_plain(b, from + 1, to, depth);
    }
}

/// Numbers, words and whitespace are opaque.
pub proof fn plain_bytes_are_opaque(v: Seq<u8>)
    requires
        forall|i: int|
            0 <= i < v.len() ==> #[trigger] v[i] != 0x22 && v[i] != 0x7b && v[i] != 0x7d && v[i]
                != 0x5b && v[i] != 0x5d && v[i] != 0x2c,
    ensures
        is_opaque(v),
{
    assert forall|before: Seq<u8>, after: Seq<u8>, depth: nat| #[trigger]
        passes(before, v, after, depth) by {
        let b = before + v + after;
        let from = before.len() as int;
        assert forall|i: int| from <= i < from + v.len() implies #[trigger] b[i] != 0x22 && b[i]
            != 0x7b && b[i] != 0x7d && b[i] != 0x5b && b[i] != 0x5d && b[i] != 0x2c by {
            assert(b[i] == v[i - from]);
        }
        lemma_plain(b, from, from + v.len(), depth);
    }
}

/// What is opaque stays so with something opaque behind it.
pub proof fn opaque_bytes_can_follow_each_other(v: Seq<u8>, w: Seq<u8>)
    requires
        is_opaque(v),
        is_opaque(w),
    ensures
        is_opaque(v + w),
{
    assert forall|before: Seq<u8>, after: Seq<u8>, depth: nat| #[trigger]
        passes(before, v + w, after, depth) by {
        assert(before + (v + w) + after =~= before + v + (w + after));
        assert(before + (v + w) + after =~= (before + v) + w + after);
        assert(passes(before, v, w + after, depth));
        assert(passes(before + v, w, after, depth));
    }
}

proof fn lemma_inner(b: Seq<u8>, i: int, depth: nat)
    requires
        depth > 1,
    ensures
        key_spans(b, i, depth, true) == key_spans(b, i, depth, false),
    decreases b.len() - i,
{
    if 0 <= i < b.len() && b[i] != 0x22 && b[i] != 0x7b && b[i] != 0x7d && b[i] != 0x5b && b[i]
        != 0x5d && b[i] != 0x2c {
        lemma_inner(b, i + 1, depth);
    }
}

/// The items, with commas.
pub open spec fn listed_items(items: Seq<Seq<u8>>) -> Seq<u8>
    decreases items.len(),
{
    if items.len() == 0 {
        Seq::empty()
    } else if items.len() == 1 {
        items[0]
    } else {
        items[0] + seq![0x2cu8] + listed_items(items.skip(1))
    }
}

proof fn lemma_items(before: Seq<u8>, items: Seq<Seq<u8>>, after: Seq<u8>, depth: nat)
    requires
        forall|i: int| 0 <= i < items.len() ==> is_opaque(#[trigger] items[i]),
        depth > 1,
    ensures
        key_spans(before + listed_items(items) + after, before.len() as int, depth, false)
            == key_spans(
            before + listed_items(items) + after,
            (before.len() + listed_items(items).len()) as int,
            depth,
            false,
        ),
    decreases items.len(),
{
    let b = before + listed_items(items) + after;
    if items.len() == 1 {
        assert(is_opaque(items[0]));
        assert(passes(before, items[0], after, depth));
    } else if items.len() > 1 {
        let more = items.skip(1);
        assert(is_opaque(items[0]));
        let rest = seq![0x2cu8] + listed_items(more) + after;
        assert(b =~= before + items[0] + rest);
        assert(passes(before, items[0], rest, depth));
        let next = before + items[0] + seq![0x2cu8];
        let comma = (before.len() + items[0].len()) as int;
        assert(b[comma] == 0x2c);
        lemma_inner(b, comma + 1, depth);
        assert(b =~= next + listed_items(more) + after);
        lemma_items(next, more, after, depth);
    }
}

/// Arrays are opaque, whatever they hold.
pub proof fn arrays_are_opaque(items: Seq<Seq<u8>>)
    requires
        forall|i: int| 0 <= i < items.len() ==> is_opaque(#[trigger] items[i]),
    ensures
        is_opaque(seq![0x5bu8] + listed_items(items) + seq![0x5du8]),
{
    let v = seq![0x5bu8] + listed_items(items) + seq![0x5du8];
    assert forall|before: Seq<u8>, after: Seq<u8>, depth: nat| #[trigger]
        passes(before, v, after, depth) by {
        if depth > 0 {
            let b = before + v + after;
            let i = before.len() as int;
            let end = i + v.len() - 1;
            let head = before + seq![0x5bu8];
            let tail = seq![0x5du8] + after;
            assert(b[i] == 0x5b);
            assert(b[end] == 0x5d);
            assert(b =~= head + listed_items(items) + tail);
            lemma_items(head, items, tail, depth + 1);
        }
    }
}

/// A member: the text and marks of its key, and its value.
pub struct Member {
    pub key: Seq<u8>,
    pub marked: Seq<bool>,
    pub value: Seq<u8>,
}

/// Whether members can be written.
pub open spec fn are_members(ms: Seq<Member>) -> bool {
    forall|i: int|
        0 <= i < ms.len() ==> may_be_written((#[trigger] ms[i]).key, ms[i].marked) && is_opaque(
            ms[i].value,
        )
}

/// The members, with colons and commas.
pub open spec fn listed_members(ms: Seq<Member>) -> Seq<u8>
    decreases ms.len(),
{
    if ms.len() == 0 {
        Seq::empty()
    } else {
        let first = literal(ms[0].key, ms[0].marked) + seq![0x3au8] + ms[0].value;
        if ms.len() == 1 {
            first
        } else {
            first + seq![0x2cu8] + listed_members(ms.skip(1))
        }
    }
}

/// The object with these members.
pub open spec fn object(ms: Seq<Member>) -> Seq<u8> {
    seq![0x7bu8] + listed_members(ms) + seq![0x7du8]
}

/// Where the keys of the members stand, if the first starts at `at`.
pub open spec fn key_places(ms: Seq<Member>, at: int) -> Seq<(int, int)>
    decreases ms.len(),
{
    if ms.len() == 0 {
        Seq::empty()
    } else {
        let end = at + literal(ms[0].key, ms[0].marked).len();
        seq![(at, end)] + key_places(ms.skip(1), end + 1 + ms[0].value.len() + 1)
    }
}

proof fn lemma_members(before: Seq<u8>, ms: Seq<Member>, after: Seq<u8>, depth: nat)
    requires
        are_members(ms),
        ms.len() > 0,
        depth > 0,
    ensures
        key_spans(before + listed_members(ms) + after, before.len() as int, depth, true) == (
        if depth == 1 {
            key_places(ms, before.len() as int)
        } else {
            Seq::empty()
        }) + key_spans(
            before + listed_members(ms) + after,
            (before.len() + listed_members(ms).len()) as int,
            depth,
            false,
        ),
    decreases ms.len(),
{
    let m = ms[0];
    assert(may_be_written(m.key, m.marked) && is_opaque(m.value));
    let k = literal(m.key, m.marked);
    let b = before + listed_members(ms) + after;
    let i = before.len() as int;
    let end = i + k.len();
    let tail = if ms.len() == 1 {
        after
    } else {
        seq![0x2cu8] + listed_members(ms.skip(1)) + after
    };
    let rest = seq![0x3au8] + m.value + tail;
    assert(b =~= before + k + rest);
    literals_end_at_their_quote(before, m.key, m.marked, rest);
    assert(b[i] == 0x22);
    assert(b[end] == 0x3a);
    let start = before + k + seq![0x3au8];
    assert(b =~= start + m.value + tail);
    assert(passes(start, m.value, tail, depth));
    let done = end + 1 + m.value.len();
    let others = key_spans(b, done, depth, false);
    assert(key_spans(b, end, depth, false) == others);
    if ms.len() == 1 {
        assert(listed_members(ms) =~= k + seq![0x3au8] + m.value);
        assert(key_places(ms.skip(1), done + 1) =~= Seq::empty());
        assert(key_places(ms, i) =~= seq![(i, end)]);
        assert(Seq::<(int, int)>::empty() + others =~= others);
    } else {
        assert(b[done] == 0x2c);
        let next = before + k + seq![0x3au8] + m.value + seq![0x2cu8];
        let more = ms.skip(1);
        assert forall|j: int| 0 <= j < more.len() implies may_be_written(
            (#[trigger] more[j]).key,
            more[j].marked,
        ) && is_opaque(more[j].value) by {
            assert(more[j] == ms[j + 1]);
        }
        lemma_members(next, more, after, depth);
        assert(b =~= next + listed_members(more) + after);
        assert(others == key_spans(b, done + 1, depth, true));
        let last = key_spans(b, (before.len() + listed_members(ms).len()) as int, depth, false);
        assert(next.len() + listed_members(more).len() == before.len() + listed_members(ms).len());
        if depth == 1 {
            assert(seq![(i, end)] + (key_places(more, done + 1) + last) =~= key_places(ms, i)
                + last);
        } else {
            assert(Seq::<(int, int)>::empty() + last =~= last);
        }
    }
}

/// The keys of an object are found where they stand, each of them and nothing else, however many
/// there are and whatever their values.
pub proof fn keys_are_found_where_they_stand(ms: Seq<Member>)
    requires
        are_members(ms),
    ensures
        key_spans(object(ms), 0, 0, false) == key_places(ms, 1),
{
    let b = object(ms);
    let head = seq![0x7bu8];
    let tail = seq![0x7du8];
    let end = b.len() - 1;
    assert(b[0] == 0x7b);
    assert(b[end] == 0x7d);
    assert(key_spans(b, end + 1, 0, false) =~= Seq::empty());
    assert(key_spans(b, end, 1, false) =~= Seq::empty());
    if ms.len() == 0 {
        assert(key_spans(b, 1, 1, true) =~= Seq::empty());
        assert(key_places(ms, 1) =~= Seq::empty());
    } else {
        lemma_members(head, ms, tail, 1);
        assert(key_places(ms, 1) + Seq::<(int, int)>::empty() =~= key_places(ms, 1));
    }
}

/// The keys of an object that is itself a value are not taken for keys of the outermost one.
pub proof fn objects_are_opaque(ms: Seq<Member>)
    requires
        are_members(ms),
    ensures
        is_opaque(object(ms)),
{
    let v = object(ms);
    assert forall|before: Seq<u8>, after: Seq<u8>, depth: nat| #[trigger]
        passes(before, v, after, depth) by {
        if depth > 0 {
            let b = before + v + after;
            let i = before.len() as int;
            let end = i + v.len() - 1;
            assert(b[i] == 0x7b);
            assert(b[end] == 0x7d);
            let head = before + seq![0x7bu8];
            let tail = seq![0x7du8] + after;
            assert(b =~= head + listed_members(ms) + tail);
            let inner = key_spans(b, end, depth + 1, false);
            assert(inner == key_spans(b, end + 1, depth, false));
            assert(key_spans(b, i, depth, false) == key_spans(b, i + 1, depth + 1, false));
            if ms.len() > 0 {
                lemma_members_unfresh(head, ms, tail, depth + 1);
            }
        }
    }
}

proof fn lemma_members_unfresh(before: Seq<u8>, ms: Seq<Member>, after: Seq<u8>, depth: nat)
    requires
        are_members(ms),
        ms.len() > 0,
        depth > 1,
    ensures
        key_spans(before + listed_members(ms) + after, before.len() as int, depth, false)
            == key_spans(
            before + listed_members(ms) + after,
            (before.len() + listed_members(ms).len()) as int,
            depth,
            false,
        ),
{
    let b = before + listed_members(ms) + after;
    let i = before.len() as int;
    let m = ms[0];
    assert(may_be_written(m.key, m.marked));
    let k = literal(m.key, m.marked);
    let rest = b.skip(i + k.len());
    assert(b =~= before + k + rest);
    literals_end_at_their_quote(before, m.key, m.marked, rest);
    assert(b[i] == 0x22);
    lemma_members(before, ms, after, depth);
    let last = key_spans(b, (before.len() + listed_members(ms).len()) as int, depth, false);
    assert(Seq::<(int, int)>::empty() + last =~= last);
}

/// A key is `cashu_request` if it reads so; in bytes that go wrong somewhere it must also stand
/// where nothing was wrong yet. Each such key counts, however many others there are.
pub proof fn each_key_is_looked_at(
    b: Seq<u8>,
    keys: Seq<(int, int)>,
    key: (int, int),
    complete: bool,
)
    ensures
        fields(b, Seq::empty(), complete) == Seq::<(int, int)>::empty(),
        is_field(b, key, complete) <==> json_string(b.subrange(key.0, key.1)) == Ok::<
            _,
            Seq<char>,
        >("cashu_request"@) && (complete || key_may_start(b, key.0)),
        is_field(b, key, complete) ==> fields(b, keys.push(key), complete) == fields(
            b,
            keys,
            complete,
        ).push(key),
        !is_field(b, key, complete) ==> fields(b, keys.push(key), complete) == fields(
            b,
            keys,
            complete,
        ),
        key_may_start(b, key.0) <==> json_object_end(
            b.take(key.0) + seq![0x20u8, 0x22u8, 0x22u8, 0x3au8, 0x30u8, 0x7du8],
        ) is Ok,
{
    assert(keys.push(key).drop_last() =~= keys);
}

/// Skipping whitespace stops at the first byte that is none, or at the end.
pub proof fn whitespace_is_skipped(b: Seq<u8>, i: int)
    requires
        0 <= i <= b.len(),
    ensures
        i <= after_spaces(b, i) <= b.len(),
        forall|j: int|
            i <= j < after_spaces(b, i) ==> (#[trigger] b[j] == 0x20 || b[j] == 0x09 || b[j] == 0x0a
                || b[j] == 0x0d),
        after_spaces(b, i) < b.len() ==> !(b[after_spaces(b, i)] == 0x20 || b[after_spaces(b, i)]
            == 0x09 || b[after_spaces(b, i)] == 0x0a || b[after_spaces(b, i)] == 0x0d),
    decreases b.len() - i,
{
    if i < b.len() && (b[i] == 0x20 || b[i] == 0x09 || b[i] == 0x0a || b[i] == 0x0d) {
        whitespace_is_skipped(b, i + 1);
    }
}

/// A place is given by its line and by how many bytes of that line stand before it.
pub proof fn places_are_lines_and_columns(before: Seq<u8>, line: Seq<u8>, after: Seq<u8>)
    requires
        before.len() == 0 || before.last() == 0x0a,
        forall|i: int| 0 <= i < line.len() ==> #[trigger] line[i] != 0x0a,
    ensures
        place(before + line + after, (before.len() + line.len()) as int) == " at line "@ + decimal(
            1 + before.filter(|c: u8| c == 0x0a).len(),
        ) + " column "@ + decimal(line.len()),
{
    let b = before + line + after;
    lemma_line_start(b, before.len() as int, (before.len() + line.len()) as int);
    lemma_line_feeds(b, before, before.len() as int);
    lemma_no_feeds(b, before.len() as int, (before.len() + line.len()) as int);
    assert(before.take(before.len() as int) =~= before);
}

proof fn lemma_line_start(b: Seq<u8>, from: int, to: int)
    requires
        0 <= from <= to <= b.len(),
        from == 0 || b[from - 1] == 0x0a,
        forall|i: int| from <= i < to ==> #[trigger] b[i] != 0x0a,
    ensures
        line_start(b, to) == from,
    decreases to - from,
{
    if from < to {
        lemma_line_start(b, from, to - 1);
    }
}

proof fn lemma_no_feeds(b: Seq<u8>, from: int, to: int)
    requires
        0 <= from <= to <= b.len(),
        forall|i: int| from <= i < to ==> #[trigger] b[i] != 0x0a,
    ensures
        line_feeds(b, to) == line_feeds(b, from),
    decreases to - from,
{
    if from < to {
        lemma_no_feeds(b, from, to - 1);
    }
}

proof fn lemma_line_feeds(b: Seq<u8>, before: Seq<u8>, n: int)
    requires
        0 <= n <= before.len() <= b.len(),
        forall|i: int| 0 <= i < before.len() ==> b[i] == before[i],
    ensures
        line_feeds(b, n) == before.take(n).filter(|c: u8| c == 0x0a).len(),
    decreases n,
{
    let f = |c: u8| c == 0x0a;
    reveal(Seq::filter);
    if n > 0 {
        lemma_line_feeds(b, before, n - 1);
        assert(before.take(n).drop_last() =~= before.take(n - 1));
        assert(before.take(n).last() == before[n - 1]);
    } else {
        assert(before.take(0) =~= Seq::empty());
    }
}

/// What stands before a position is blanked out byte by byte, and the lines stay.
pub proof fn blanking_keeps_lines(b: Seq<u8>, i: int, j: int)
    requires
        0 <= j < b.len(),
    ensures
        blanked(b, i).len() == b.len(),
        j >= i || b[j] == 0x0a ==> blanked(b, i)[j] == b[j],
        j < i && b[j] != 0x0a ==> blanked(b, i)[j] == 0x20,
{
}

/// The last occurrence of a name is replaced, wherever it stands; a text without it stays.
pub proof fn the_last_occurrence_is_replaced(
    before: Seq<char>,
    name: Seq<char>,
    after: Seq<char>,
    replacement: Seq<char>,
)
    requires
        name.len() > 0,
        forall|k: int|
            1 <= k <= after.len() ==> #[trigger] (name + after).subrange(k, k + name.len()) != name,
    ensures
        renamed(before + name + after, name, replacement) == before + replacement + after,
    decreases after.len(),
{
    let s = before + name + after;
    let start = s.len() - name.len();
    if after.len() == 0 {
        assert(s.skip(start) =~= name);
        assert(s.take(start) =~= before);
        assert(before + replacement + after =~= before + replacement);
    } else {
        let k = after.len() as int;
        assert(s.skip(start) =~= (name + after).subrange(k, k + name.len()));
        let shorter = after.drop_last();
        assert(s.drop_last() =~= before + name + shorter);
        assert forall|k: int| 1 <= k <= shorter.len() implies #[trigger] (name + shorter).subrange(
            k,
            k + name.len(),
        ) != name by {
            assert((name + shorter).subrange(k, k + name.len()) =~= (name + after).subrange(
                k,
                k + name.len(),
            ));
        }
        the_last_occurrence_is_replaced(before, name, shorter, replacement);
        assert((before + replacement + shorter).push(after.last()) =~= before + replacement
            + after);
    }
}

/// A text in which a name does not occur stays as it is.
pub proof fn texts_without_the_name_stay(s: Seq<char>, name: Seq<char>, replacement: Seq<char>)
    requires
        name.len() > 0,
        forall|k: int| 0 <= k <= s.len() - name.len() ==> #[trigger] s.subrange(k, k + name.len()) != name,
    ensures
        renamed(s, name, replacement) == s,
    decreases s.len(),
{
    if s.len() >= name.len() {
        let start = s.len() - name.len();
        assert(s.skip(start) =~= s.subrange(start, start + name.len()));
        let t = s.drop_last();
        assert forall|k: int| 0 <= k <= t.len() - name.len() implies #[trigger] t.subrange(
            k,
            k + name.len(),
        ) != name by {
            assert(t.subrange(k, k + name.len()) =~= s.subrange(k, k + name.len()));
        }
        texts_without_the_name_stay(t, name, replacement);
        assert(t.push(s.last()) =~= s);
    }
}

/// The keys `cashu_request` of bytes that are, or start with, a complete object.
pub open spec fn request_keys(b: Seq<u8>, end: int) -> Seq<(int, int)> {
    fields(b.take(end), key_spans(b.take(end), 0, 0, false), true)
}

/// A complete object holds the string behind its one `cashu_request`, if the object is all there
/// is and it is UTF-8; without that member, or with two, or with one that is no string, it is
/// refused for that, at the place where it shows.
pub proof fn complete_objects_hold_their_member(b: Seq<u8>, end: nat, content: Seq<char>)
    requires
        json_object_end(b) == Ok::<_, Seq<char>>(end),
        end <= b.len(),
    ensures
        request_keys(b, end as int).len() == 0 ==> object_content(b) == Err::<Seq<char>, _>(
            "missing field `cashu_request`"@ + place(b, end as int),
        ),
        ({
            let keys = request_keys(b, end as int);
            let colon = after_spaces(b, keys[0].1);
            keys.len() > 0 && (colon >= b.len() || b[colon] != 0x3a) ==> object_content(b) == Err::<
                Seq<char>,
                _,
            >("missing field `cashu_request`"@ + place(b, end as int))
        }),
        ({
            let keys = request_keys(b, end as int);
            let colon = after_spaces(b, keys[0].1);
            keys.len() > 0 && colon < b.len() && b[colon] == 0x3a ==> {
                &&& json_string(blanked(b, colon + 1)) matches Err(m) ==> object_content(b)
                    == Err::<Seq<char>, _>(m)
                &&& json_string(blanked(b, colon + 1)) == Ok::<_, Seq<char>>(content) && keys.len()
                    == 1 && json_object_only(b) is Ok && json_text(b) is Ok ==> object_content(b)
                    == Ok::<_, Seq<char>>(content)
                &&& json_string(blanked(b, colon + 1)) is Ok && keys.len() == 1
                    && json_object_only(b) is Err ==> object_content(b) == Err::<Seq<char>, _>(
                    json_object_only(b)->Err_0,
                )
                &&& json_string(blanked(b, colon + 1)) is Ok && keys.len() == 1
                    && json_object_only(b) is Ok && json_text(b) is Err ==> object_content(b)
                    == Err::<Seq<char>, _>(json_text(b)->Err_0)
                &&& json_string(blanked(b, colon + 1)) is Ok && keys.len() > 1 ==> object_content(b)
                    == Err::<Seq<char>, _>(
                    "duplicate field `cashu_request`"@ + place(
                        b,
                        past_brace(b, after_spaces(b, keys[1].1)),
                    ),
                )
            }
        }),
{
}

/// Bytes that are no object are refused with serde_json's message, in which the map that it
/// expects is the envelope; unless something was wrong with a `cashu_request` before.
pub proof fn what_is_no_object_is_refused(b: Seq<u8>, m: Seq<char>)
    requires
        json_object_end(b) == Err::<nat, _>(m),
    ensures
        object_content(b) is Err,
        ({
            let keys = fields(b, key_spans(b, 0, 0, false), false);
            let colon = after_spaces(b, keys[0].1);
            let value = json_string(blanked(b, colon + 1));
            let has_value = keys.len() > 0 && colon < b.len() && b[colon] == 0x3a;
            &&& !has_value || value is Ok && keys.len() == 1 ==> object_content(b) == Err::<
                Seq<char>,
                _,
            >(renamed(m, "a map"@, "struct RequestEnvelope"@))
            &&& has_value && value is Err ==> object_content(b) == Err::<Seq<char>, _>(
                value->Err_0,
            )
            &&& has_value && value is Ok && keys.len() > 1 ==> object_content(b) == Err::<
                Seq<char>,
                _,
            >(
                "duplicate field `cashu_request`"@ + place(
                    b,
                    past_brace(b, after_spaces(b, keys[1].1)),
                ),
            )
        }),
{
}

/// The position of a closing brace is the one behind it, and any other stays.
pub proof fn closing_braces_are_passed(b: Seq<u8>, i: int)
    requires
        0 <= i < b.len(),
    ensures
        past_brace(b, i) == i + if b[i] == 0x7d {
            1int
        } else {
            0
        },
        past_brace(b, b.len() as int) == b.len(),
{
}

/// An envelope is read as an array if that is what it starts with, and as an object otherwise.
pub proof fn envelopes_are_arrays_or_objects(b: Seq<u8>)
    ensures
        ({
            let start = after_spaces(b, 0);
            let is_array = start < b.len() && b[start] == 0x5b;
            &&& !is_array ==> envelope_content(b) == object_content(b)
            &&& is_array && json_singleton(b) is Ok ==> envelope_content(b) == json_singleton(b)
            &&& is_array && json_singleton(b) is Err ==> envelope_content(b) == Err::<
                Seq<char>,
                _,
            >(
                renamed(
                    json_singleton(b)->Err_0,
                    "a tuple of size 1"@,
                    "struct RequestEnvelope with 1 element"@,
                ),
            )
        }),
{
}

/// An envelope is the base64url text of an object whose one member is the content.
pub proof fn envelopes_hold_one_member(content: Seq<char>)
    ensures
        envelope(content) == base64url(
            encode_utf8("{\"cashu_request\":"@ + json_literal(content) + "}"@),
        ),
{
    reveal_strlit("cashu_request");
    reveal_strlit("{\"cashu_request\":");
    reveal_strlit("}");
    let object = json_object("cashu_request"@, json_literal(content));
    assert(object =~= "{\"cashu_request\":"@ + json_literal(content) + "}"@);
}

/// An envelope opens to what its bytes hold, whatever whitespace stands around it; what fails is
/// told apart, and always a failure to decode.
pub proof fn envelopes_open_to_what_they_hold(b64: Seq<char>)
    ensures
        base64url_decoded(trimmed(b64)) matches Err(m) ==> opened(b64) == Err::<Seq<char>, _>(
            ErrorView::DecodeFailed("request envelope base64: "@ + m),
        ),
        base64url_decoded(trimmed(b64)) matches Ok(b) ==> match envelope_content(b) {
            Ok(content) => opened(b64) == Ok::<_, ErrorView>(content),
            Err(m) => opened(b64) == Err::<Seq<char>, _>(
                ErrorView::DecodeFailed("request envelope json: "@ + m),
            ),
        },
{
}

} // verus!
