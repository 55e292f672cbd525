//! Assembling an inventory from the files of a package tree: which files make
//! up each component, in what order they are digested, and in what order the
//! components are listed.

use vstd::prelude::*;

use std::path::PathBuf;

use crate::enterprise::manifest::{hex_text, lower_hex_of_length, sha256_digest, sha256_hex};
use crate::hybrid::{
    classify_component_path, component_key, key_lt, lemma_key_lt_asymmetric, lemma_key_lt_total,
    lemma_key_lt_transitive, normalize_contents, normalized, part_texts, spec_classify, ComponentCategory, key_texts,
    MetadataComponent, OrgInventory, HYBRID_SCHEMA_VERSION,
};
use crate::oracle::texts_of;
use crate::text::{
    ascii_lower, chars_equal, chars_lt, chars_of, encode_utf8, slice_chars, lemma_text_lt_asymmetric, lemma_text_lt_total,
    lemma_text_lt_transitive, lower_chars, push_str, string_from_chars, text_lt, utf8_bytes,
};

verus! {

/// A component key with both parts lower-cased.
pub open spec fn lower_key(key: (Seq<char>, Seq<char>)) -> (Seq<char>, Seq<char>) {
    (ascii_lower(key.0), ascii_lower(key.1))
}

/// The order in which an inventory lists components: by type and then name
/// compared without ASCII case, and by the exact texts where those agree.
pub open spec fn inventory_lt(a: (Seq<char>, Seq<char>), b: (Seq<char>, Seq<char>)) -> bool {
    key_lt(lower_key(a), lower_key(b)) || (lower_key(a) == lower_key(b) && key_lt(a, b))
}

/// No key comes before itself, and of two keys at most one comes first.
pub proof fn lemma_inventory_lt_asymmetric(a: (Seq<char>, Seq<char>), b: (Seq<char>, Seq<char>))
    ensures
        !(inventory_lt(a, b) && inventory_lt(b, a)),
        !inventory_lt(a, a),
{
    lemma_key_lt_asymmetric(lower_key(a), lower_key(b));
    lemma_key_lt_asymmetric(a, b);
}

/// The inventory order is transitive.
pub proof fn lemma_inventory_lt_transitive(a: (Seq<char>, Seq<char>), b: (Seq<char>, Seq<char>), c: (Seq<char>, Seq<char>))
    requires
        inventory_lt(a, b),
        inventory_lt(b, c),
    ensures
        inventory_lt(a, c),
{
    if key_lt(lower_key(a), lower_key(b)) && key_lt(lower_key(b), lower_key(c)) {
        lemma_key_lt_transitive(lower_key(a), lower_key(b), lower_key(c));
    } else if key_lt(lower_key(a), lower_key(b)) {
    } else if key_lt(lower_key(b), lower_key(c)) {
    } else {
        lemma_key_lt_transitive(a, b, c);
    }
}

/// Of two different keys, one comes first.
pub proof fn lemma_inventory_lt_total(a: (Seq<char>, Seq<char>), b: (Seq<char>, Seq<char>))
    requires
        a != b,
    ensures
        inventory_lt(a, b) || inventory_lt(b, a),
{
    if lower_key(a) != lower_key(b) {
        lemma_key_lt_total(lower_key(a), lower_key(b));
    } else {
        lemma_key_lt_total(a, b);
    }
}

/// Whether key `a` comes before key `b` in an inventory.
pub fn inventory_less(a0: &[char], a1: &[char], b0: &[char], b1: &[char]) -> (result: bool)
    ensures
        result == inventory_lt((a0@, a1@), (b0@, b1@)),
{
    let la0 = lower_chars(a0);
    let la1 = lower_chars(a1);
    let lb0 = lower_chars(b0);
    let lb1 = lower_chars(b1);
    if chars_lt(la0.as_slice(), lb0.as_slice()) {
        return true;
    }
    if chars_equal(la0.as_slice(), lb0.as_slice()) && chars_lt(la1.as_slice(), lb1.as_slice()) {
        return true;
    }
    if !(chars_equal(la0.as_slice(), lb0.as_slice()) && chars_equal(la1.as_slice(), lb1.as_slice())) {
        return false;
    }
    if chars_lt(a0, b0) {
        return true;
    }
    chars_equal(a0, b0) && chars_lt(a1, b1)
}

/// The order of relative paths given by their parts: part by part, a proper
/// prefix first.
pub open spec fn parts_lt(a: Seq<Seq<char>>, b: Seq<Seq<char>>) -> bool
    decreases a.len(),
{
    if a.len() == 0 {
        b.len() > 0
    } else if b.len() == 0 {
        false
    } else if a[0] != b[0] {
        text_lt(a[0], b[0])
    } else {
        parts_lt(a.drop_first(), b.drop_first())
    }
}

/// No path comes before itself, and of two paths at most one comes first.
pub proof fn lemma_parts_lt_asymmetric(a: Seq<Seq<char>>, b: Seq<Seq<char>>)
    ensures
        !(parts_lt(a, b) && parts_lt(b, a)),
        !parts_lt(a, a),
    decreases a.len(),
{
    if a.len() > 0 && b.len() > 0 {
        lemma_text_lt_asymmetric(a[0], b[0]);
        if a[0] == b[0] {
            lemma_parts_lt_asymmetric(a.drop_first(), b.drop_first());
        }
    }
    if a.len() > 0 {
        lemma_parts_lt_asymmetric(a.drop_first(), a.drop_first());
    }
}

/// The order of paths is transitive.
pub proof fn lemma_parts_lt_transitive(a: Seq<Seq<char>>, b: Seq<Seq<char>>, c: Seq<Seq<char>>)
    requires
        parts_lt(a, b),
        parts_lt(b, c),
    ensures
        parts_lt(a, c),
    decreases a.len(),
{
    if a.len() > 0 && b.len() > 0 && c.len() > 0 {
        if a[0] != b[0] && b[0] != c[0] {
            lemma_text_lt_transitive(a[0], b[0], c[0]);
            if a[0] == c[0] {
                lemma_text_lt_asymmetric(a[0], b[0]);
            }
        } else if a[0] == b[0] && b[0] == c[0] {
            lemma_parts_lt_transitive(a.drop_first(), b.drop_first(), c.drop_first());
        }
    }
}

/// Of two different paths, one comes first.
pub proof fn lemma_parts_lt_total(a: Seq<Seq<char>>, b: Seq<Seq<char>>)
    requires
        a != b,
    ensures
        parts_lt(a, b) || parts_lt(b, a),
    decreases a.len(),
{
    if a.len() == 0 {
        if b.len() == 0 {
            assert(a =~= b);
        }
    } else if b.len() > 0 {
        if a[0] != b[0] {
            lemma_text_lt_total(a[0], b[0]);
        } else {
            if a.drop_first() == b.drop_first() {
                assert(a =~= seq![a[0]] + a.drop_first());
                assert(b =~= seq![b[0]] + b.drop_first());
            }
            lemma_parts_lt_total(a.drop_first(), b.drop_first());
        }
    }
}

/// Whether path `a` comes before path `b`.
pub fn parts_less(a: &Vec<String>, b: &Vec<String>) -> (result: bool)
    ensures
        result == parts_lt(texts_of(a@), texts_of(b@)),
{
    let ghost ta = texts_of(a@);
    let ghost tb = texts_of(b@);
    let mut i: usize = 0;
    assert(ta.skip(0) =~= ta);
    assert(tb.skip(0) =~= tb);
    while i < a.len() && i < b.len()
        invariant
            ta == texts_of(a@),
            tb == texts_of(b@),
            i <= a@.len(),
            i <= b@.len(),
            parts_lt(ta, tb) == parts_lt(ta.skip(i as int), tb.skip(i as int)),
        decreases a@.len() - i,
    {
        let x = chars_of(a[i].as_str());
        let y = chars_of(b[i].as_str());
        assert(ta.skip(i as int)[0] == x@ && tb.skip(i as int)[0] == y@);
        if !chars_equal(x.as_slice(), y.as_slice()) {
            return chars_lt(x.as_slice(), y.as_slice());
        }
        assert(ta.skip(i as int).drop_first() =~= ta.skip(i + 1));
        assert(tb.skip(i as int).drop_first() =~= tb.skip(i + 1));
        i += 1;
    }
    i == a.len() && i < b.len()
}


/// A file part as plain values: its role and contents.
pub open spec fn part_view(part: (String, Vec<u8>)) -> (Seq<char>, Seq<u8>) {
    (part.0@, part.1@)
}

/// Each file part as plain values.
pub open spec fn part_views(parts: Seq<(String, Vec<u8>)>) -> Seq<(Seq<char>, Seq<u8>)> {
    Seq::new(parts.len(), |i: int| part_view(parts[i]))
}

/// A file path as plain values: its parts, and the path.
pub open spec fn path_view(path: (Vec<String>, PathBuf)) -> (Seq<Seq<char>>, PathBuf) {
    (texts_of(path.0@), path.1)
}

/// Each file path as plain values.
pub open spec fn path_views(paths: Seq<(Vec<String>, PathBuf)>) -> Seq<(Seq<Seq<char>>, PathBuf)> {
    Seq::new(paths.len(), |i: int| path_view(paths[i]))
}

/// A text before another comes before a third that is not before the second.
proof fn lemma_text_not_before_chain(a: Seq<char>, b: Seq<char>, c: Seq<char>)
    requires
        text_lt(a, b),
        b == c || !text_lt(c, b),
    ensures
        text_lt(a, c),
{
    if b != c {
        lemma_text_lt_total(b, c);
        lemma_text_lt_transitive(a, b, c);
    }
}

/// A path before another comes before a third that is not before the second.
proof fn lemma_parts_not_before_chain(a: Seq<Seq<char>>, b: Seq<Seq<char>>, c: Seq<Seq<char>>)
    requires
        parts_lt(a, b),
        b == c || !parts_lt(c, b),
    ensures
        parts_lt(a, c),
{
    if b != c {
        lemma_parts_lt_total(b, c);
        lemma_parts_lt_transitive(a, b, c);
    }
}

/// Whether an entry's sort key is `key`.
pub open spec fn role_is(key: Seq<char>) -> spec_fn((Seq<char>, Seq<u8>)) -> bool {
    |entry: (Seq<char>, Seq<u8>)| entry.0 == key
}

/// Whether entries come in ascending order of their sort keys.
pub open spec fn sorted_by_role(entries: Seq<(Seq<char>, Seq<u8>)>) -> bool {
    forall|i: int, j: int| 0 <= i < j < entries.len() ==> !text_lt(#[trigger] entries[j].0, #[trigger] entries[i].0)
}

/// Whether `sorted` keeps the entries of `entries`, those of one key in
/// their original order.
pub open spec fn same_role_stably(sorted: Seq<(Seq<char>, Seq<u8>)>, entries: Seq<(Seq<char>, Seq<u8>)>) -> bool {
    forall|key: Seq<char>| #[trigger] sorted.filter(role_is(key)) == entries.filter(role_is(key))
}

/// Entries in ascending order of their sort keys, those of one key in their
/// original order.
pub fn sort_by_role(entries: Vec<(String, Vec<u8>)>) -> (result: Vec<(String, Vec<u8>)>)
    ensures
        sorted_by_role(part_views(result@)),
        same_role_stably(part_views(result@), part_views(entries@)),
{
    let ghost input = part_views(entries@);
    let mut rest = entries;
    let total = rest.len();
    let mut out: Vec<(String, Vec<u8>)> = Vec::new();
    let mut i: usize = 0;
    proof {
        assert forall|key: Seq<char>| #[trigger] part_views(out@).filter(role_is(key)) == input.take(0).filter(role_is(key)) by {
            assert(part_views(out@) =~= Seq::empty());
            assert(input.take(0) =~= Seq::empty());
            reveal(Seq::filter);
        }
    }
    while rest.len() > 0
        invariant
            part_views(rest@) == input.skip(i as int),
            i + rest@.len() == input.len(),
            input.len() == total,
            sorted_by_role(part_views(out@)),
            forall|key: Seq<char>| #[trigger] part_views(out@).filter(role_is(key)) == input.take(i as int).filter(role_is(key)),
        decreases rest@.len(),
    {
        let ghost before = part_views(out@);
        let ghost rest_before = rest@;
        let entry = rest.remove(0);
        let ghost x = part_view(entry);
        assert(x == input[i as int]) by {
            assert(part_views(rest_before)[0] == input.skip(i as int)[0]);
        }
        assert(part_views(rest@) =~= input.skip(i + 1)) by {
            assert forall|k: int| 0 <= k < rest@.len() implies part_views(rest@)[k] == input.skip(i + 1)[k] by {
                assert(rest@[k] == rest_before[k + 1]);
                assert(part_views(rest_before)[k + 1] == input.skip(i as int)[k + 1]);
            }
        }
        let mut p: usize = 0;
        while p < out.len() && !chars_lt(chars_of(entry.0.as_str()).as_slice(), chars_of(out[p].0.as_str()).as_slice())
            invariant
                p <= out@.len(),
                before == part_views(out@),
                x == part_view(entry),
                forall|k: int| 0 <= k < p ==> !text_lt(x.0, #[trigger] before[k].0),
            decreases out@.len() - p,
        {
            p += 1;
        }
        proof {
            if p < before.len() {
                assert(text_lt(x.0, before[p as int].0));
            }
        }
        out.insert(p, entry);
        let ghost after = part_views(out@);
        assert(after =~= before.insert(p as int, x));
        proof {
            before.insert_ensures(p as int, x);
            assert forall|a: int, b: int| 0 <= a < b < after.len() implies !text_lt(#[trigger] after[b].0, #[trigger] after[a].0) by {
                if b < p {
                    assert(after[a] == before[a] && after[b] == before[b]);
                } else if b == p {
                    assert(after[a] == before[a]);
                } else if a < p {
                    assert(after[a] == before[a] && after[b] == before[b - 1]);
                    if p < b - 1 {
                        assert(!text_lt(before[b - 1].0, before[p as int].0));
                    }
                    lemma_text_not_before_chain(x.0, before[p as int].0, before[b - 1].0);
                    lemma_text_lt_asymmetric(x.0, before[b - 1].0);
                    if text_lt(before[b - 1].0, before[a].0) {
                        if x.0 != before[a].0 {
                            lemma_text_lt_total(x.0, before[a].0);
                            lemma_text_lt_transitive(before[b - 1].0, before[a].0, x.0);
                        }
                    }
                } else if a == p {
                    assert(after[b] == before[b - 1]);
                    if p < b - 1 {
                        assert(!text_lt(before[b - 1].0, before[p as int].0));
                    }
                    lemma_text_not_before_chain(x.0, before[p as int].0, before[b - 1].0);
                    lemma_text_lt_asymmetric(x.0, before[b - 1].0);
                } else {
                    assert(after[a] == before[a - 1] && after[b] == before[b - 1]);
                }
            }
            assert forall|key: Seq<char>| #[trigger] after.filter(role_is(key)) == input.take(i + 1).filter(role_is(key)) by {
                let head = before.take(p as int);
                let tail = before.skip(p as int);
                assert(before =~= head + tail);
                assert(after =~= head + seq![x] + tail);
                Seq::filter_distributes_over_add(head, tail, role_is(key));
                Seq::filter_distributes_over_add(head + seq![x], tail, role_is(key));
                Seq::filter_distributes_over_add(head, seq![x], role_is(key));
                assert(input.take(i + 1) =~= input.take(i as int).push(x));
                input.take(i as int).lemma_filter_push(x, role_is(key));
                let none = Seq::<(Seq<char>, Seq<u8>)>::empty();
                assert(seq![x] =~= none.push(x));
                none.lemma_filter_push(x, role_is(key));
                reveal(Seq::filter);
                assert(none.filter(role_is(key)) =~= none);
                if x.0 == key {
                    assert forall|k: int| 0 <= k < tail.len() implies !role_is(key)(#[trigger] tail[k]) by {
                        assert(tail[k] == before[p + k]);
                        if k > 0 {
                            assert(!text_lt(before[p + k].0, before[p as int].0));
                        }
                        lemma_text_not_before_chain(x.0, before[p as int].0, before[p + k].0);
                        lemma_text_lt_asymmetric(x.0, before[p + k].0);
                    }
                    tail.lemma_all_neg_filter_empty(role_is(key));
                    assert(head.filter(role_is(key)) + tail.filter(role_is(key)) =~= head.filter(role_is(key)));
                    assert(head.filter(role_is(key)) + seq![x] =~= head.filter(role_is(key)).push(x));
                } else {
                    assert(seq![x].filter(role_is(key)) =~= Seq::empty());
                    assert(head.filter(role_is(key)) + Seq::empty() =~= head.filter(role_is(key)));
                }
            }
        }
        i += 1;
    }
    proof {
        assert(input.take(i as int) =~= input);
    }
    out
}

/// Whether an entry's sort key is `key`.
pub open spec fn path_is(key: Seq<Seq<char>>) -> spec_fn((Seq<Seq<char>>, PathBuf)) -> bool {
    |entry: (Seq<Seq<char>>, PathBuf)| entry.0 == key
}

/// Whether entries come in ascending order of their sort keys.
pub open spec fn sorted_by_path(entries: Seq<(Seq<Seq<char>>, PathBuf)>) -> bool {
    forall|i: int, j: int| 0 <= i < j < entries.len() ==> !parts_lt(#[trigger] entries[j].0, #[trigger] entries[i].0)
}

/// Whether `sorted` keeps the entries of `entries`, those of one key in
/// their original order.
pub open spec fn same_path_stably(sorted: Seq<(Seq<Seq<char>>, PathBuf)>, entries: Seq<(Seq<Seq<char>>, PathBuf)>) -> bool {
    forall|key: Seq<Seq<char>>| #[trigger] sorted.filter(path_is(key)) == entries.filter(path_is(key))
}

/// Entries in ascending order of their sort keys, those of one key in their
/// original order.
pub fn sort_by_path(entries: Vec<(Vec<String>, PathBuf)>) -> (result: Vec<(Vec<String>, PathBuf)>)
    ensures
        sorted_by_path(path_views(result@)),
        same_path_stably(path_views(result@), path_views(entries@)),
{
    let ghost input = path_views(entries@);
    let mut rest = entries;
    let total = rest.len();
    let mut out: Vec<(Vec<String>, PathBuf)> = Vec::new();
    let mut i: usize = 0;
    proof {
        assert forall|key: Seq<Seq<char>>| #[trigger] path_views(out@).filter(path_is(key)) == input.take(0).filter(path_is(key)) by {
            assert(path_views(out@) =~= Seq::empty());
            assert(input.take(0) =~= Seq::empty());
            reveal(Seq::filter);
        }
    }
    while rest.len() > 0
        invariant
            path_views(rest@) == input.skip(i as int),
            i + rest@.len() == input.len(),
            input.len() == total,
            sorted_by_path(path_views(out@)),
            forall|key: Seq<Seq<char>>| #[trigger] path_views(out@).filter(path_is(key)) == input.take(i as int).filter(path_is(key)),
        decreases rest@.len(),
    {
        let ghost before = path_views(out@);
        let ghost rest_before = rest@;
        let entry = rest.remove(0);
        let ghost x = path_view(entry);
        assert(x == input[i as int]) by {
            assert(path_views(rest_before)[0] == input.skip(i as int)[0]);
        }
        assert(path_views(rest@) =~= input.skip(i + 1)) by {
            assert forall|k: int| 0 <= k < rest@.len() implies path_views(rest@)[k] == input.skip(i + 1)[k] by {
                assert(rest@[k] == rest_before[k + 1]);
                assert(path_views(rest_before)[k + 1] == input.skip(i as int)[k + 1]);
            }
        }
        let mut p: usize = 0;
        while p < out.len() && !parts_less(&entry.0, &out[p].0)
            invariant
                p <= out@.len(),
                before == path_views(out@),
                x == path_view(entry),
                forall|k: int| 0 <= k < p ==> !parts_lt(x.0, #[trigger] before[k].0),
            decreases out@.len() - p,
        {
            p += 1;
        }
        proof {
            if p < before.len() {
                assert(parts_lt(x.0, before[p as int].0));
            }
        }
        out.insert(p, entry);
        let ghost after = path_views(out@);
        assert(after =~= before.insert(p as int, x));
        proof {
            before.insert_ensures(p as int, x);
            assert forall|a: int, b: int| 0 <= a < b < after.len() implies !parts_lt(#[trigger] after[b].0, #[trigger] after[a].0) by {
                if b < p {
                    assert(after[a] == before[a] && after[b] == before[b]);
                } else if b == p {
                    assert(after[a] == before[a]);
                } else if a < p {
                    assert(after[a] == before[a] && after[b] == before[b - 1]);
                    if p < b - 1 {
                        assert(!parts_lt(before[b - 1].0, before[p as int].0));
                    }
                    lemma_parts_not_before_chain(x.0, before[p as int].0, before[b - 1].0);
                    lemma_parts_lt_asymmetric(x.0, before[b - 1].0);
                    if parts_lt(before[b - 1].0, before[a].0) {
                        if x.0 != before[a].0 {
                            lemma_parts_lt_total(x.0, before[a].0);
                            lemma_parts_lt_transitive(before[b - 1].0, before[a].0, x.0);
                        }
                    }
                } else if a == p {
                    assert(after[b] == before[b - 1]);
                    if p < b - 1 {
                        assert(!parts_lt(before[b - 1].0, before[p as int].0));
                    }
                    lemma_parts_not_before_chain(x.0, before[p as int].0, before[b - 1].0);
                    lemma_parts_lt_asymmetric(x.0, before[b - 1].0);
                } else {
                    assert(after[a] == before[a - 1] && after[b] == before[b - 1]);
                }
            }
            assert forall|key: Seq<Seq<char>>| #[trigger] after.filter(path_is(key)) == input.take(i + 1).filter(path_is(key)) by {
                let head = before.take(p as int);
                let tail = before.skip(p as int);
                assert(before =~= head + tail);
                assert(after =~= head + seq![x] + tail);
                Seq::filter_distributes_over_add(head, tail, path_is(key));
                Seq::filter_distributes_over_add(head + seq![x], tail, path_is(key));
                Seq::filter_distributes_over_add(head, seq![x], path_is(key));
                assert(input.take(i + 1) =~= input.take(i as int).push(x));
                input.take(i as int).lemma_filter_push(x, path_is(key));
                let none = Seq::<(Seq<Seq<char>>, PathBuf)>::empty();
                assert(seq![x] =~= none.push(x));
                none.lemma_filter_push(x, path_is(key));
                reveal(Seq::filter);
                assert(none.filter(path_is(key)) =~= none);
                if x.0 == key {
                    assert forall|k: int| 0 <= k < tail.len() implies !path_is(key)(#[trigger] tail[k]) by {
                        assert(tail[k] == before[p + k]);
                        if k > 0 {
                            assert(!parts_lt(before[p + k].0, before[p as int].0));
                        }
                        lemma_parts_not_before_chain(x.0, before[p as int].0, before[p + k].0);
                        lemma_parts_lt_asymmetric(x.0, before[p + k].0);
                    }
                    tail.lemma_all_neg_filter_empty(path_is(key));
                    assert(head.filter(path_is(key)) + tail.filter(path_is(key)) =~= head.filter(path_is(key)));
                    assert(head.filter(path_is(key)) + seq![x] =~= head.filter(path_is(key)).push(x));
                } else {
                    assert(seq![x].filter(path_is(key)) =~= Seq::empty());
                    assert(head.filter(path_is(key)) + Seq::empty() =~= head.filter(path_is(key)));
                }
            }
        }
        i += 1;
    }
    proof {
        assert(input.take(i as int) =~= input);
    }
    out
}


/// The bytes a component's digest covers: for each part in turn, its role in
/// UTF-8, a zero byte, its contents and a `0xff` byte.
pub open spec fn framed(parts: Seq<(Seq<char>, Seq<u8>)>) -> Seq<u8>
    decreases parts.len(),
{
    if parts.len() == 0 {
        Seq::empty()
    } else {
        framed(parts.drop_last()) + utf8_bytes(parts.last().0) + seq![0u8] + parts.last().1 + seq![0xffu8]
    }
}

/// The digest of a component's parts: the SHA-256 digest, in lower-case
/// hexadecimal, of the parts framed in ascending order of role, parts of one
/// role in their given order.
pub fn component_digest(parts: Vec<(String, Vec<u8>)>) -> (result: String)
    ensures
        lower_hex_of_length(result@, 64),
        exists|sorted: Seq<(Seq<char>, Seq<u8>)>| {
            &&& sorted_by_role(sorted)
            &&& same_role_stably(sorted, part_views(parts@))
            &&& result@ == hex_text(sha256_digest(framed(sorted)))
        },
{
    let sorted = sort_by_role(parts);
    let ghost views = part_views(sorted@);
    let mut bytes: Vec<u8> = Vec::new();
    let mut i: usize = 0;
    while i < sorted.len()
        invariant
            views == part_views(sorted@),
            i <= sorted@.len(),
            bytes@ == framed(views.take(i as int)),
        decreases sorted@.len() - i,
    {
        let role = encode_utf8(chars_of(sorted[i].0.as_str()).as_slice());
        let mut k: usize = 0;
        let ghost start = bytes@;
        while k < role.len()
            invariant
                k <= role@.len(),
                bytes@ == start + role@.take(k as int),
            decreases role@.len() - k,
        {
            bytes.push(role[k]);
            assert(bytes@ =~= start + role@.take(k + 1));
            k += 1;
        }
        bytes.push(0u8);
        let ghost middle = bytes@;
        let mut k: usize = 0;
        while k < sorted[i].1.len()
            invariant
                i < sorted@.len(),
                k <= sorted@[i as int].1@.len(),
                bytes@ == middle + sorted@[i as int].1@.take(k as int),
            decreases sorted@[i as int].1@.len() - k,
        {
            bytes.push(sorted[i].1[k]);
            assert(bytes@ =~= middle + sorted@[i as int].1@.take(k + 1));
            k += 1;
        }
        bytes.push(0xffu8);
        proof {
            assert(role@.take(role@.len() as int) =~= role@);
            assert(sorted@[i as int].1@.take(sorted@[i as int].1@.len() as int) =~= sorted@[i as int].1@);
            assert(views.take(i + 1).drop_last() =~= views.take(i as int));
            assert(views.take(i + 1).last() == views[i as int]);
            assert(bytes@ =~= framed(views.take(i as int)) + utf8_bytes(views[i as int].0) + seq![0u8] + views[i as int].1
                + seq![0xffu8]);
        }
        i += 1;
    }
    assert(views.take(views.len() as int) =~= views);
    sha256_hex(bytes.as_slice())
}


/// `PathBuf::clone` gives back the same path.
pub assume_specification[ <PathBuf as Clone>::clone ](path: &PathBuf) -> (result: PathBuf)
    ensures
        result == *path,
;

/// A classified package file as plain values: its component key, category,
/// role (its file name), path, and normalized contents.
pub open spec fn file_entry(file: (PathBuf, Vec<String>, Vec<u8>)) -> Option<
    ((Seq<char>, Seq<char>), ComponentCategory, Seq<char>, (Seq<Seq<char>>, PathBuf), Seq<u8>),
> {
    let parts = part_texts(file.1@);
    match spec_classify(parts) {
        Some((metadata_type, full_name, category)) => Some(
            ((metadata_type, full_name), category, parts.last(), (parts, file.0), normalized(parts, file.2@)),
        ),
        None => None,
    }
}

/// The package files that belong to a component, in the given order.
pub open spec fn entries_of(files: Seq<(PathBuf, Vec<String>, Vec<u8>)>) -> Seq<
    ((Seq<char>, Seq<char>), ComponentCategory, Seq<char>, (Seq<Seq<char>>, PathBuf), Seq<u8>),
>
    decreases files.len(),
{
    if files.len() == 0 {
        Seq::empty()
    } else {
        entries_of(files.drop_last()) + match file_entry(files.last()) {
            Some(entry) => seq![entry],
            None => Seq::empty(),
        }
    }
}

/// The position of the first of the first `n` entries with `key`, if any.
pub open spec fn first_of_key(
    entries: Seq<((Seq<char>, Seq<char>), ComponentCategory, Seq<char>, (Seq<Seq<char>>, PathBuf), Seq<u8>)>,
    key: (Seq<char>, Seq<char>),
    n: int,
) -> Option<int>
    decreases n,
{
    if n <= 0 {
        None
    } else {
        match first_of_key(entries, key, n - 1) {
            Some(i) => Some(i),
            None => if entries[n - 1].0 == key { Some(n - 1) } else { None },
        }
    }
}

/// Whether entry `i` gives its component another category than the first
/// entry of that component did.
pub open spec fn category_conflict(
    entries: Seq<((Seq<char>, Seq<char>), ComponentCategory, Seq<char>, (Seq<Seq<char>>, PathBuf), Seq<u8>)>,
    i: int,
) -> bool {
    first_of_key(entries, entries[i].0, i) matches Some(f) && entries[f].1 != entries[i].1
}

/// The first entry from `i` on with a conflicting category.
pub open spec fn first_category_conflict(
    entries: Seq<((Seq<char>, Seq<char>), ComponentCategory, Seq<char>, (Seq<Seq<char>>, PathBuf), Seq<u8>)>,
    i: int,
) -> Option<int>
    decreases entries.len() - i,
{
    if i < 0 || i >= entries.len() {
        None
    } else if category_conflict(entries, i) {
        Some(i)
    } else {
        first_category_conflict(entries, i + 1)
    }
}

/// The roles and contents of the first `n` entries with `key`, in order.
pub open spec fn group_parts(
    entries: Seq<((Seq<char>, Seq<char>), ComponentCategory, Seq<char>, (Seq<Seq<char>>, PathBuf), Seq<u8>)>,
    key: (Seq<char>, Seq<char>),
    n: int,
) -> Seq<(Seq<char>, Seq<u8>)>
    decreases n,
{
    if n <= 0 {
        Seq::empty()
    } else {
        group_parts(entries, key, n - 1) + if entries[n - 1].0 == key {
            seq![(entries[n - 1].2, entries[n - 1].4)]
        } else {
            Seq::empty()
        }
    }
}

/// The paths of the first `n` entries with `key`, in order.
pub open spec fn group_paths(
    entries: Seq<((Seq<char>, Seq<char>), ComponentCategory, Seq<char>, (Seq<Seq<char>>, PathBuf), Seq<u8>)>,
    key: (Seq<char>, Seq<char>),
    n: int,
) -> Seq<(Seq<Seq<char>>, PathBuf)>
    decreases n,
{
    if n <= 0 {
        Seq::empty()
    } else {
        group_paths(entries, key, n - 1) + if entries[n - 1].0 == key {
            seq![entries[n - 1].3]
        } else {
            Seq::empty()
        }
    }
}

/// The paths of sorted path entries.
pub open spec fn paths_of(paths: Seq<(Seq<Seq<char>>, PathBuf)>) -> Seq<PathBuf> {
    Seq::new(paths.len(), |i: int| paths[i].1)
}

/// Whether `components` are the components that `entries` make up: one per
/// key, in inventory order, each with the category of its first entry, the
/// digest of its parts in role order and its paths in path order.
pub open spec fn assembled(
    components: Seq<MetadataComponent>,
    entries: Seq<((Seq<char>, Seq<char>), ComponentCategory, Seq<char>, (Seq<Seq<char>>, PathBuf), Seq<u8>)>,
) -> bool {
    let n = entries.len() as int;
    &&& forall|i: int, j: int| 0 <= i < j < components.len() ==> inventory_lt(
        component_key(#[trigger] components[i]),
        component_key(#[trigger] components[j]),
    )
    &&& forall|key: (Seq<char>, Seq<char>)| #[trigger] first_of_key(entries, key, n) is Some ==> exists|k: int|
        0 <= k < components.len() && component_key(#[trigger] components[k]) == key
    &&& forall|k: int| 0 <= k < components.len() ==> ({
        let key = component_key(#[trigger] components[k]);
        &&& first_of_key(entries, key, n) matches Some(f) && components[k].category == entries[f].1
        &&& exists|sorted: Seq<(Seq<char>, Seq<u8>)>| {
            &&& sorted_by_role(sorted)
            &&& same_role_stably(sorted, group_parts(entries, key, n))
            &&& components[k].sha256@ == hex_text(sha256_digest(framed(sorted)))
        }
        &&& exists|sorted: Seq<(Seq<Seq<char>>, PathBuf)>| {
            &&& sorted_by_path(sorted)
            &&& same_path_stably(sorted, group_paths(entries, key, n))
            &&& components[k].files@ == paths_of(sorted)
        }
    })
}

/// The message for a component whose files disagree on its category.
pub open spec fn conflict_message(role: Seq<char>) -> Seq<char> {
    "metadata component `"@ + role + "` has conflicting categories"@
}


/// A classified file as plain values.
pub open spec fn entry_view(
    entry: (String, String, ComponentCategory, String, Vec<String>, PathBuf, Vec<u8>),
) -> ((Seq<char>, Seq<char>), ComponentCategory, Seq<char>, (Seq<Seq<char>>, PathBuf), Seq<u8>) {
    ((entry.0@, entry.1@), entry.2, entry.3@, (part_texts(entry.4@), entry.5), entry.6@)
}

/// Each classified file as plain values.
pub open spec fn entry_views(
    entries: Seq<(String, String, ComponentCategory, String, Vec<String>, PathBuf, Vec<u8>)>,
) -> Seq<((Seq<char>, Seq<char>), ComponentCategory, Seq<char>, (Seq<Seq<char>>, PathBuf), Seq<u8>)> {
    Seq::new(entries.len(), |i: int| entry_view(entries[i]))
}

/// A copy of a list of strings.
fn copy_strings(strings: &Vec<String>) -> (result: Vec<String>)
    ensures
        result@ == strings@,
{
    let mut out: Vec<String> = Vec::new();
    let mut i: usize = 0;
    while i < strings.len()
        invariant
            i <= strings@.len(),
            out@ == strings@.take(i as int),
        decreases strings@.len() - i,
    {
        out.push(strings[i].clone());
        assert(out@ =~= strings@.take(i + 1));
        i += 1;
    }
    assert(strings@.take(strings@.len() as int) =~= strings@);
    out
}

/// A copy of a list of bytes.
fn copy_bytes(bytes: &Vec<u8>) -> (result: Vec<u8>)
    ensures
        result@ == bytes@,
{
    let mut out: Vec<u8> = Vec::new();
    let mut i: usize = 0;
    while i < bytes.len()
        invariant
            i <= bytes@.len(),
            out@ == bytes@.take(i as int),
        decreases bytes@.len() - i,
    {
        out.push(bytes[i]);
        assert(out@ =~= bytes@.take(i + 1));
        i += 1;
    }
    assert(bytes@.take(bytes@.len() as int) =~= bytes@);
    out
}

/// The package files that belong to a component, classified, with their
/// normalized contents, in the given order.
fn classify_files(files: Vec<(PathBuf, Vec<String>, Vec<u8>)>) -> (result: Vec<
    (String, String, ComponentCategory, String, Vec<String>, PathBuf, Vec<u8>),
>)
    ensures
        entry_views(result@) == entries_of(files@),
{
    let ghost input = files@;
    let mut rest = files;
    let total = rest.len();
    let mut out: Vec<(String, String, ComponentCategory, String, Vec<String>, PathBuf, Vec<u8>)> = Vec::new();
    let mut i: usize = 0;
    assert(input.take(0) =~= Seq::<(PathBuf, Vec<String>, Vec<u8>)>::empty());
    assert(entry_views(out@) =~= entries_of(input.take(0)));
    while rest.len() > 0
        invariant
            rest@ == input.skip(i as int),
            i + rest@.len() == input.len(),
            input.len() == total,
            entry_views(out@) == entries_of(input.take(i as int)),
        decreases rest@.len(),
    {
        let ghost before = entry_views(out@);
        let ghost rest_before = rest@;
        let file = rest.remove(0);
        assert(file == input[i as int]) by {
            assert(rest_before[0] == input.skip(i as int)[0]);
        }
        assert(rest@ =~= input.skip(i + 1));
        assert(input.take(i + 1).drop_last() =~= input.take(i as int));
        assert(input.take(i + 1).last() == file);
        let (path, parts, bytes) = file;
        match classify_component_path(parts.as_slice()) {
            Some(classified) => {
                let contents = normalize_contents(parts.as_slice(), bytes.as_slice());
                let entry = (
                    classified.key.metadata_type,
                    classified.key.full_name,
                    classified.category,
                    classified.role,
                    parts,
                    path,
                    contents,
                );
                let ghost view = entry_view(entry);
                assert(part_texts(entry.4@) =~= texts_of(entry.4@));
                assert(Some(view) == file_entry(input[i as int]));
                out.push(entry);
                assert(entry_views(out@) =~= before.push(view));
            },
            None => {
                assert(file_entry(input[i as int]) is None);
                assert(entries_of(input.take(i + 1)) =~= before);
            },
        }
        i += 1;
    }
    assert(input.take(i as int) =~= input);
    out
}

/// With no earlier entry of `key` before `n`, there is no first one.
proof fn lemma_first_of_key_none(
    entries: Seq<((Seq<char>, Seq<char>), ComponentCategory, Seq<char>, (Seq<Seq<char>>, PathBuf), Seq<u8>)>,
    key: (Seq<char>, Seq<char>),
    n: int,
)
    requires
        n <= entries.len(),
        forall|q: int| 0 <= q < n ==> (#[trigger] entries[q]).0 != key,
    ensures
        first_of_key(entries, key, n) is None,
    decreases n,
{
    if n > 0 {
        lemma_first_of_key_none(entries, key, n - 1);
    }
}

/// The first entry of `key` is the first one that has it.
proof fn lemma_first_of_key_at(
    entries: Seq<((Seq<char>, Seq<char>), ComponentCategory, Seq<char>, (Seq<Seq<char>>, PathBuf), Seq<u8>)>,
    key: (Seq<char>, Seq<char>),
    n: int,
    j: int,
)
    requires
        0 <= j < n <= entries.len(),
        entries[j].0 == key,
        forall|q: int| 0 <= q < j ==> (#[trigger] entries[q]).0 != key,
    ensures
        first_of_key(entries, key, n) == Some(j),
    decreases n,
{
    if n - 1 > j {
        lemma_first_of_key_at(entries, key, n - 1, j);
    } else {
        lemma_first_of_key_none(entries, key, j);
    }
}

/// The position of the first entry with the key of entry `i`, before `i`.
fn first_with_key(
    entries: &Vec<(String, String, ComponentCategory, String, Vec<String>, PathBuf, Vec<u8>)>,
    key0: &[char],
    key1: &[char],
    n: usize,
) -> (result: Option<usize>)
    requires
        n <= entries@.len(),
    ensures
        (match result {
            Some(j) => Some(j as int),
            None => None,
        }) == first_of_key(entry_views(entries@), (key0@, key1@), n as int),
        result matches Some(j) ==> j < n,
{
    let ghost views = entry_views(entries@);
    let ghost key = (key0@, key1@);
    let mut j: usize = 0;
    while j < n
        invariant
            views == entry_views(entries@),
            key == (key0@, key1@),
            j <= n <= entries@.len(),
            forall|q: int| 0 <= q < j ==> (#[trigger] views[q]).0 != key,
        decreases n - j,
    {
        if chars_equal(chars_of(entries[j].0.as_str()).as_slice(), key0) && chars_equal(
            chars_of(entries[j].1.as_str()).as_slice(),
            key1,
        ) {
            proof {
                lemma_first_of_key_at(views, key, n as int, j as int);
            }
            return Some(j);
        }
        assert(views[j as int].0 != key);
        j += 1;
    }
    proof {
        lemma_first_of_key_none(views, key, n as int);
    }
    None
}

/// The first entry whose category conflicts with its component's first entry.
fn find_category_conflict(
    entries: &Vec<(String, String, ComponentCategory, String, Vec<String>, PathBuf, Vec<u8>)>,
) -> (result: Option<usize>)
    ensures
        (match result {
            Some(i) => Some(i as int),
            None => None,
        }) == first_category_conflict(entry_views(entries@), 0),
        result matches Some(i) ==> i < entries@.len(),
{
    let ghost views = entry_views(entries@);
    let mut i: usize = 0;
    while i < entries.len()
        invariant
            views == entry_views(entries@),
            i <= entries@.len(),
            first_category_conflict(views, 0) == first_category_conflict(views, i as int),
        decreases entries@.len() - i,
    {
        let key0 = chars_of(entries[i].0.as_str());
        let key1 = chars_of(entries[i].1.as_str());
        assert((key0@, key1@) == views[i as int].0);
        match first_with_key(entries, key0.as_slice(), key1.as_slice(), i) {
            Some(f) => {
                if entries[f].2 != entries[i].2 {
                    assert(category_conflict(views, i as int));
                    return Some(i);
                }
            },
            None => {},
        }
        i += 1;
    }
    None
}


/// Whether keys ascend strictly in inventory order.
pub open spec fn inventory_sorted(keys: Seq<(Seq<char>, Seq<char>)>) -> bool {
    forall|i: int, j: int| 0 <= i < j < keys.len() ==> inventory_lt(#[trigger] keys[i], #[trigger] keys[j])
}

/// Adds a key to a list in strict inventory order unless it is already there.
fn insert_inventory_key(keys: &mut Vec<(Vec<char>, Vec<char>)>, k0: &[char], k1: &[char])
    requires
        inventory_sorted(key_texts(old(keys)@)),
    ensures
        inventory_sorted(key_texts(final(keys)@)),
        forall|k: (Seq<char>, Seq<char>)| key_texts(final(keys)@).contains(k) <==> (key_texts(old(keys)@).contains(k) || k
            == (k0@, k1@)),
{
    let ghost before = key_texts(keys@);
    let ghost key = (k0@, k1@);
    let mut p: usize = 0;
    while p < keys.len() && inventory_less(keys[p].0.as_slice(), keys[p].1.as_slice(), k0, k1)
        invariant
            p <= keys@.len(),
            before == key_texts(keys@),
            key == (k0@, k1@),
            forall|q: int| 0 <= q < p ==> inventory_lt(#[trigger] before[q], key),
        decreases keys@.len() - p,
    {
        p += 1;
    }
    if p < keys.len() && chars_equal(keys[p].0.as_slice(), k0) && chars_equal(keys[p].1.as_slice(), k1) {
        assert(before[p as int] == key);
        return;
    }
    proof {
        if p < before.len() {
            assert(!inventory_lt(before[p as int], key));
            lemma_inventory_lt_total(before[p as int], key);
            assert(inventory_lt(key, before[p as int]));
        }
    }
    let entry = (slice_chars(k0, 0, k0.len()), slice_chars(k1, 0, k1.len()));
    assert(entry.0@ =~= k0@);
    assert(entry.1@ =~= k1@);
    keys.insert(p, entry);
    let ghost after = key_texts(keys@);
    assert(after =~= before.insert(p as int, key));
    assert forall|i: int, j: int| 0 <= i < j < after.len() implies inventory_lt(#[trigger] after[i], #[trigger] after[j]) by {
        if j < p {
        } else if j == p {
        } else if i < p {
            assert(after[j] == before[j - 1]);
            if j - 1 > p {
                lemma_inventory_lt_transitive(key, before[p as int], before[j - 1]);
            }
            lemma_inventory_lt_transitive(before[i], key, before[j - 1]);
        } else if i == p {
            assert(after[j] == before[j - 1]);
            if j - 1 > p {
                lemma_inventory_lt_transitive(key, before[p as int], before[j - 1]);
            }
        } else {
            assert(after[i] == before[i - 1]);
            assert(after[j] == before[j - 1]);
        }
    }
    assert forall|k: (Seq<char>, Seq<char>)| after.contains(k) <==> (before.contains(k) || k == key) by {
        if after.contains(k) {
            let i = choose|i: int| 0 <= i < after.len() && after[i] == k;
            if i < p {
                assert(before[i] == k);
            } else if i > p {
                assert(before[i - 1] == k);
            }
        }
        if before.contains(k) {
            let i = choose|i: int| 0 <= i < before.len() && before[i] == k;
            if i < p {
                assert(after[i] == k);
            } else {
                assert(after[i + 1] == k);
            }
        }
        if k == key {
            assert(after[p as int] == k);
        }
    }
}


/// Each component of the inventory, for the entries' keys in inventory order.
fn components_of(
    entries: &Vec<(String, String, ComponentCategory, String, Vec<String>, PathBuf, Vec<u8>)>,
    keys: &Vec<(Vec<char>, Vec<char>)>,
) -> (result: Vec<MetadataComponent>)
    requires
        inventory_sorted(key_texts(keys@)),
        forall|k: int| 0 <= k < keys@.len() ==> first_of_key(entry_views(entries@), #[trigger] key_texts(keys@)[k], entries@.len() as int) is Some,
    ensures
        result@.len() == keys@.len(),
        forall|k: int| 0 <= k < keys@.len() ==> component_key(#[trigger] result@[k]) == key_texts(keys@)[k],
        forall|k: int| 0 <= k < result@.len() ==> ({
            let key = component_key(#[trigger] result@[k]);
            let views = entry_views(entries@);
            let n = entries@.len() as int;
            &&& first_of_key(views, key, n) matches Some(f) && result@[k].category == views[f].1
            &&& exists|sorted: Seq<(Seq<char>, Seq<u8>)>| {
                &&& sorted_by_role(sorted)
                &&& same_role_stably(sorted, group_parts(views, key, n))
                &&& result@[k].sha256@ == hex_text(sha256_digest(framed(sorted)))
            }
            &&& exists|sorted: Seq<(Seq<Seq<char>>, PathBuf)>| {
                &&& sorted_by_path(sorted)
                &&& same_path_stably(sorted, group_paths(views, key, n))
                &&& result@[k].files@ == paths_of(sorted)
            }
        }),
{
    let ghost views = entry_views(entries@);
    let ghost n = entries@.len() as int;
    let mut out: Vec<MetadataComponent> = Vec::new();
    let mut t: usize = 0;
    while t < keys.len()
        invariant
            views == entry_views(entries@),
            n == entries@.len(),
            t <= keys@.len(),
            out@.len() == t,
            forall|k: int| 0 <= k < keys@.len() ==> first_of_key(views, #[trigger] key_texts(keys@)[k], n) is Some,
            forall|k: int| 0 <= k < t ==> component_key(#[trigger] out@[k]) == key_texts(keys@)[k],
            forall|k: int| 0 <= k < out@.len() ==> ({
                let key = component_key(#[trigger] out@[k]);
                &&& first_of_key(views, key, n) matches Some(f) && out@[k].category == views[f].1
                &&& exists|sorted: Seq<(Seq<char>, Seq<u8>)>| {
                    &&& sorted_by_role(sorted)
                    &&& same_role_stably(sorted, group_parts(views, key, n))
                    &&& out@[k].sha256@ == hex_text(sha256_digest(framed(sorted)))
                }
                &&& exists|sorted: Seq<(Seq<Seq<char>>, PathBuf)>| {
                    &&& sorted_by_path(sorted)
                    &&& same_path_stably(sorted, group_paths(views, key, n))
                    &&& out@[k].files@ == paths_of(sorted)
                }
            }),
        decreases keys@.len() - t,
    {
        let k0 = keys[t].0.as_slice();
        let k1 = keys[t].1.as_slice();
        let ghost key = (k0@, k1@);
        assert(key == key_texts(keys@)[t as int]);
        let first = match first_with_key(entries, k0, k1, entries.len()) {
            Some(first) => first,
            None => {
                assert(false);
                0
            },
        };
        let category = entries[first].2;
        let mut parts: Vec<(String, Vec<u8>)> = Vec::new();
        let mut paths: Vec<(Vec<String>, PathBuf)> = Vec::new();
        let mut i: usize = 0;
        while i < entries.len()
            invariant
                views == entry_views(entries@),
                i <= entries@.len(),
                key == (k0@, k1@),
                part_views(parts@) == group_parts(views, key, i as int),
                path_views(paths@) == group_paths(views, key, i as int),
            decreases entries@.len() - i,
        {
            let ghost parts_before = part_views(parts@);
            let ghost paths_before = path_views(paths@);
            if chars_equal(chars_of(entries[i].0.as_str()).as_slice(), k0) && chars_equal(
                chars_of(entries[i].1.as_str()).as_slice(),
                k1,
            ) {
                assert(views[i as int].0 == key);
                let part = (entries[i].3.clone(), copy_bytes(&entries[i].6));
                let ghost part_view_now = part_view(part);
                parts.push(part);
                assert(part_views(parts@) =~= parts_before.push(part_view_now));
                let path = (copy_strings(&entries[i].4), entries[i].5.clone());
                let ghost path_view_now = path_view(path);
                assert(texts_of(path.0@) =~= part_texts(entries@[i as int].4@));
                paths.push(path);
                assert(path_views(paths@) =~= paths_before.push(path_view_now));
            } else {
                assert(views[i as int].0 != key);
            }
            i += 1;
        }
        let sha256 = component_digest(parts);
        let sorted_paths = sort_by_path(paths);
        let ghost sorted_views = path_views(sorted_paths@);
        let mut files: Vec<PathBuf> = Vec::new();
        let mut q: usize = 0;
        while q < sorted_paths.len()
            invariant
                sorted_views == path_views(sorted_paths@),
                q <= sorted_paths@.len(),
                files@ == paths_of(sorted_views.take(q as int)),
            decreases sorted_paths@.len() - q,
        {
            files.push(sorted_paths[q].1.clone());
            assert(files@ =~= paths_of(sorted_views.take(q + 1)));
            q += 1;
        }
        assert(sorted_views.take(sorted_views.len() as int) =~= sorted_views);
        let component = MetadataComponent {
            metadata_type: string_from_chars(k0),
            full_name: string_from_chars(k1),
            category,
            sha256,
            files,
        };
        assert(component_key(component) == key);
        let ghost before = out@;
        out.push(component);
        proof {
            assert forall|k: int| 0 <= k < out@.len() implies ({
                let key = component_key(#[trigger] out@[k]);
                &&& first_of_key(views, key, n) matches Some(f) && out@[k].category == views[f].1
                &&& exists|sorted: Seq<(Seq<char>, Seq<u8>)>| {
                    &&& sorted_by_role(sorted)
                    &&& same_role_stably(sorted, group_parts(views, key, n))
                    &&& out@[k].sha256@ == hex_text(sha256_digest(framed(sorted)))
                }
                &&& exists|sorted: Seq<(Seq<Seq<char>>, PathBuf)>| {
                    &&& sorted_by_path(sorted)
                    &&& same_path_stably(sorted, group_paths(views, key, n))
                    &&& out@[k].files@ == paths_of(sorted)
                }
            }) by {
                if k < t {
                    assert(out@[k] == before[k]);
                } else {
                    assert(out@[k] == component);
                    assert(sorted_by_path(sorted_views));
                }
            }
        }
        t += 1;
    }
    out
}

/// The inventory of a package tree from its files, each given by its path,
/// the parts of that path relative to the tree, and its bytes, in the order
/// the tree is walked. Files that belong to no modeled component are left
/// out. Fails, naming the file's role, at the first file that gives its
/// component another category than the component's first file did.
pub fn assemble_inventory(target: &str, files: Vec<(PathBuf, Vec<String>, Vec<u8>)>) -> (result: Result<OrgInventory, String>)
    ensures
        ({
            let entries = entries_of(files@);
            match first_category_conflict(entries, 0) {
                Some(i) => result matches Err(message) && message@ == conflict_message(entries[i].2),
                None => result matches Ok(inventory) && inventory.schema_version == HYBRID_SCHEMA_VERSION
                    && inventory.target@ == target@ && assembled(inventory.components@, entries),
            }
        }),
{
    let entries = classify_files(files);
    let ghost views = entry_views(entries@);
    if let Some(i) = find_category_conflict(&entries) {
        let mut message: Vec<char> = Vec::new();
        push_str(&mut message, "metadata component `");
        push_str(&mut message, entries[i].3.as_str());
        push_str(&mut message, "` has conflicting categories");
        return Err(string_from_chars(message.as_slice()));
    }
    let mut keys: Vec<(Vec<char>, Vec<char>)> = Vec::new();
    let mut i: usize = 0;
    assert(key_texts(keys@) =~= Seq::empty());
    while i < entries.len()
        invariant
            views == entry_views(entries@),
            i <= entries@.len(),
            inventory_sorted(key_texts(keys@)),
            forall|k: (Seq<char>, Seq<char>)| key_texts(keys@).contains(k) <==> exists|j: int| 0 <= j < i && (#[trigger] views[j]).0 == k,
        decreases entries@.len() - i,
    {
        let k0 = chars_of(entries[i].0.as_str());
        let k1 = chars_of(entries[i].1.as_str());
        insert_inventory_key(&mut keys, k0.as_slice(), k1.as_slice());
        proof {
            assert((k0@, k1@) == views[i as int].0);
            assert forall|k: (Seq<char>, Seq<char>)| key_texts(keys@).contains(k) <==> exists|j: int| 0 <= j < i + 1 && (#[trigger] views[j]).0 == k by {
                if k == views[i as int].0 {
                    assert(views[i as int].0 == k);
                }
            }
        }
        i += 1;
    }
    proof {
        assert forall|k: int| 0 <= k < keys@.len() implies first_of_key(views, #[trigger] key_texts(keys@)[k], views.len() as int) is Some by {
            let key = key_texts(keys@)[k];
            assert(key_texts(keys@).contains(key));
            let j = choose|j: int| 0 <= j < views.len() && (#[trigger] views[j]).0 == key;
            lemma_first_of_key_bounded(views, key, views.len() as int, j);
        }
    }
    let components = components_of(&entries, &keys);
    proof {
        assert forall|key: (Seq<char>, Seq<char>)| #[trigger] first_of_key(views, key, views.len() as int) is Some implies exists|k: int|
            0 <= k < components@.len() && component_key(#[trigger] components@[k]) == key by {
            lemma_first_of_key_found(views, key, views.len() as int);
            let f = first_of_key(views, key, views.len() as int)->0;
            assert(views[f].0 == key);
            assert(key_texts(keys@).contains(key));
            let k = choose|k: int| 0 <= k < key_texts(keys@).len() && key_texts(keys@)[k] == key;
            assert(component_key(components@[k]) == key);
        }
    }
    Ok(OrgInventory { schema_version: HYBRID_SCHEMA_VERSION, target: target.to_string(), components })
}

/// A key that some entry has has a first entry.
proof fn lemma_first_of_key_bounded(
    entries: Seq<((Seq<char>, Seq<char>), ComponentCategory, Seq<char>, (Seq<Seq<char>>, PathBuf), Seq<u8>)>,
    key: (Seq<char>, Seq<char>),
    n: int,
    j: int,
)
    requires
        0 <= j < n <= entries.len(),
        entries[j].0 == key,
    ensures
        first_of_key(entries, key, n) is Some,
    decreases n,
{
    if n - 1 > j {
        lemma_first_of_key_bounded(entries, key, n - 1, j);
    }
}

/// The first entry of a key lies in range and has the key.
proof fn lemma_first_of_key_found(
    entries: Seq<((Seq<char>, Seq<char>), ComponentCategory, Seq<char>, (Seq<Seq<char>>, PathBuf), Seq<u8>)>,
    key: (Seq<char>, Seq<char>),
    n: int,
)
    requires
        n <= entries.len(),
    ensures
        first_of_key(entries, key, n) matches Some(f) ==> 0 <= f < n && entries[f].0 == key,
    decreases n,
{
    if n > 0 {
        lemma_first_of_key_found(entries, key, n - 1);
    }
}

} // verus!
