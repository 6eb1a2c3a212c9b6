//! Directory listings: which entries are shown and in what order, the
//! breadcrumb trail, the index page, and the page for a path that was not
//! found.

use crate::paths::{path_within, within};
use crate::serve::{derive_entry_url_path, percent_encode_segment, percent_encoded_text, url_path_of};
use crate::text::{
    chars_less, chars_of, lemma_lex_irreflexive, lemma_lex_total, lemma_lex_transitive, lex_less,
    lowercase_of, split_chars, split_on, string_of, views_of,
};
use vstd::prelude::*;
use vstd::string::*;

verus! {

// ---------------------------------------------------------------------------
// Escaping
// ---------------------------------------------------------------------------

/// One character as HTML text: `<`, `>`, `&` and `"` become entities.
pub open spec fn escaped_text_char(c: char) -> Seq<char> {
    if c == '<' {
        "&lt;"@
    } else if c == '>' {
        "&gt;"@
    } else if c == '&' {
        "&amp;"@
    } else if c == '"' {
        "&quot;"@
    } else {
        seq![c]
    }
}

/// A text with `<`, `>`, `&` and `"` escaped.
pub open spec fn escaped_text(s: Seq<char>) -> Seq<char>
    decreases s.len(),
{
    if s.len() == 0 {
        Seq::<char>::empty()
    } else {
        escaped_text(s.drop_last()) + escaped_text_char(s.last())
    }
}

/// Appends `s` to `out` with `<`, `>`, `&` and `"` escaped.
pub fn push_escaped_text(out: &mut String, s: &str)
    ensures
        final(out)@ == old(out)@ + escaped_text(s@),
{
    let cs = chars_of(s);
    let mut i: usize = 0;
    proof {
        assert(cs@.take(0) =~= Seq::<char>::empty());
        assert(out@ =~= old(out)@ + escaped_text(cs@.take(0)));
    }
    while i < cs.len()
        invariant
            i <= cs.len(),
            cs@ == s@,
            out@ == old(out)@ + escaped_text(cs@.take(i as int)),
        decreases cs.len() - i,
    {
        let c = cs[i];
        let ghost prev = out@;
        proof {
            assert(cs@.take(i + 1).drop_last() == cs@.take(i as int));
            assert(cs@.take(i + 1).last() == c);
        }
        if c == '<' {
            out.append("&lt;");
        } else if c == '>' {
            out.append("&gt;");
        } else if c == '&' {
            out.append("&amp;");
        } else if c == '"' {
            out.append("&quot;");
        } else {
            out.push(c);
            proof {
                assert(out@ =~= prev + seq![c]);
            }
        }
        proof {
            assert(out@ =~= old(out)@ + (escaped_text(cs@.take(i as int)) + escaped_text_char(c)));
        }
        i += 1;
    }
    proof {
        assert(cs@.take(cs.len() as int) == cs@);
    }
}

/// Escapes `<`, `>`, `&` and `"` for use in HTML text and attribute values.
pub fn html_escape_text(s: &str) -> (out: String)
    ensures
        out@ == escaped_text(s@),
{
    let mut out = String::new();
    push_escaped_text(&mut out, s);
    proof {
        assert(Seq::<char>::empty() + escaped_text(s@) =~= escaped_text(s@));
    }
    out
}

// ---------------------------------------------------------------------------
// Listing policy
// ---------------------------------------------------------------------------

/// An entry of a directory as plain text: its name and whether it is a
/// directory.
pub type EntryText = (Seq<char>, bool);

/// The entries of a list as plain text.
pub open spec fn entry_views(v: Seq<(String, bool)>) -> Seq<EntryText> {
    Seq::new(v.len(), |i: int| (v[i].0@, v[i].1))
}

/// An entry is hidden when its name starts with a dot.
pub open spec fn is_hidden(name: Seq<char>) -> bool {
    name.len() > 0 && name[0] == '.'
}

/// Whether `a` must stand before `b` in a listing: a directory before a
/// file, and within each kind the name that comes first when both are
/// lower-cased.
pub open spec fn goes_before(a: EntryText, b: EntryText) -> bool {
    (a.1 && !b.1) || (a.1 == b.1 && lex_less(lowercase_of(a.0), lowercase_of(b.0)))
}

/// A sorted listing with one more entry: it goes behind every entry that it
/// need not stand before.
pub open spec fn inserted(sorted: Seq<EntryText>, e: EntryText) -> Seq<EntryText>
    decreases sorted.len(),
{
    if sorted.len() > 0 && goes_before(e, sorted.last()) {
        inserted(sorted.drop_last(), e).push(sorted.last())
    } else {
        sorted.push(e)
    }
}

/// The listing of a directory's entries: the hidden ones left out, the rest
/// with directories first and names in case-insensitive order, entries that
/// the order does not tell apart in the order in which they came.
pub open spec fn arranged(entries: Seq<EntryText>) -> Seq<EntryText>
    decreases entries.len(),
{
    if entries.len() == 0 {
        Seq::empty()
    } else if is_hidden(entries.last().0) {
        arranged(entries.drop_last())
    } else {
        inserted(arranged(entries.drop_last()), entries.last())
    }
}

/// A listing with one more entry holds that entry and what it held before.
pub proof fn lemma_inserted_members(sorted: Seq<EntryText>, e: EntryText)
    ensures
        inserted(sorted, e).len() == sorted.len() + 1,
        forall|x: EntryText|
            #![trigger inserted(sorted, e).contains(x)]
            inserted(sorted, e).contains(x) <==> (sorted.contains(x) || x == e),
    decreases sorted.len(),
{
    if sorted.len() > 0 && goes_before(e, sorted.last()) {
        let head = sorted.drop_last();
        lemma_inserted_members(head, e);
        let ins = inserted(head, e);
        let all = ins.push(sorted.last());
        assert forall|x: EntryText| all.contains(x) <==> (sorted.contains(x) || x == e) by {
            if all.contains(x) {
                let i = choose|i: int| 0 <= i < all.len() && all[i] == x;
                if i < ins.len() {
                    assert(ins.contains(x));
                    if head.contains(x) {
                        let k = choose|k: int| 0 <= k < head.len() && head[k] == x;
                        assert(sorted[k] == x);
                    }
                } else {
                    assert(sorted[sorted.len() - 1] == x);
                }
            }
            if sorted.contains(x) {
                let k = choose|k: int| 0 <= k < sorted.len() && sorted[k] == x;
                if k < head.len() {
                    assert(head[k] == x);
                    assert(head.contains(x));
                    assert(ins.contains(x));
                    let m = choose|m: int| 0 <= m < ins.len() && ins[m] == x;
                    assert(all[m] == x);
                } else {
                    assert(all[all.len() - 1] == x);
                }
            }
            if x == e {
                assert(ins.contains(e));
                let m = choose|m: int| 0 <= m < ins.len() && ins[m] == e;
                assert(all[m] == e);
            }
        }
    } else {
        let all = sorted.push(e);
        assert forall|x: EntryText| all.contains(x) <==> (sorted.contains(x) || x == e) by {
            if all.contains(x) {
                let i = choose|i: int| 0 <= i < all.len() && all[i] == x;
                if i < sorted.len() {
                    assert(sorted[i] == x);
                }
            }
            if sorted.contains(x) {
                let k = choose|k: int| 0 <= k < sorted.len() && sorted[k] == x;
                assert(all[k] == x);
            }
            if x == e {
                assert(all[all.len() - 1] == e);
            }
        }
    }
}

/// A listing shows exactly the entries that are not hidden: no entry whose
/// name starts with a dot is listed, and every other entry is.
pub proof fn lemma_listing_shows_visible(entries: Seq<EntryText>)
    ensures
        forall|x: EntryText|
            #![trigger arranged(entries).contains(x)]
            arranged(entries).contains(x) <==> (entries.contains(x) && !is_hidden(x.0)),
    decreases entries.len(),
{
    if entries.len() > 0 {
        let head = entries.drop_last();
        let last = entries.last();
        lemma_listing_shows_visible(head);
        if !is_hidden(last.0) {
            lemma_inserted_members(arranged(head), last);
        }
        assert forall|x: EntryText|
            arranged(entries).contains(x) <==> (entries.contains(x) && !is_hidden(x.0)) by {
            if entries.contains(x) {
                let k = choose|k: int| 0 <= k < entries.len() && entries[k] == x;
                if k < head.len() {
                    assert(head[k] == x);
                }
            }
            if head.contains(x) {
                let k = choose|k: int| 0 <= k < head.len() && head[k] == x;
                assert(entries[k] == x);
            }
            assert(entries[entries.len() - 1] == last);
        }
    }
}

/// Whether a listing is in order: no entry stands behind one that it must
/// stand before.
pub open spec fn in_order(entries: Seq<EntryText>) -> bool {
    forall|i: int, j: int|
        0 <= i < j < entries.len() ==> !goes_before(#[trigger] entries[j], #[trigger] entries[i])
}

/// An entry that must stand before another need not stand behind it.
pub proof fn lemma_goes_before_one_way(a: EntryText, b: EntryText)
    requires
        goes_before(a, b),
    ensures
        !goes_before(b, a),
{
    if a.1 == b.1 {
        if lex_less(lowercase_of(b.0), lowercase_of(a.0)) {
            lemma_lex_transitive(lowercase_of(a.0), lowercase_of(b.0), lowercase_of(a.0));
            lemma_lex_irreflexive(lowercase_of(a.0));
        }
    }
}

/// An entry that must stand before another must stand before a third, or
/// the third before the other.
pub proof fn lemma_goes_before_splits(a: EntryText, b: EntryText, c: EntryText)
    requires
        goes_before(a, c),
    ensures
        goes_before(a, b) || goes_before(b, c),
{
    let ka = lowercase_of(a.0);
    let kb = lowercase_of(b.0);
    let kc = lowercase_of(c.0);
    if a.1 == c.1 && b.1 == a.1 {
        lemma_lex_total(ka, kb);
        if lex_less(kb, ka) {
            lemma_lex_transitive(kb, ka, kc);
        }
    }
}

/// A listing in order is in order with one more entry.
pub proof fn lemma_inserted_in_order(sorted: Seq<EntryText>, e: EntryText)
    requires
        in_order(sorted),
    ensures
        in_order(inserted(sorted, e)),
    decreases sorted.len(),
{
    if sorted.len() > 0 && goes_before(e, sorted.last()) {
        let head = sorted.drop_last();
        let last = sorted.last();
        assert(in_order(head)) by {
            assert forall|i: int, j: int| 0 <= i < j < head.len() implies !goes_before(
                #[trigger] head[j],
                #[trigger] head[i],
            ) by {
                assert(head[i] == sorted[i] && head[j] == sorted[j]);
            }
        }
        lemma_inserted_in_order(head, e);
        lemma_inserted_members(head, e);
        let ins = inserted(head, e);
        let all = ins.push(last);
        assert forall|i: int, j: int| 0 <= i < j < all.len() implies !goes_before(
            #[trigger] all[j],
            #[trigger] all[i],
        ) by {
            if j < ins.len() {
                assert(all[i] == ins[i] && all[j] == ins[j]);
            } else {
                assert(all[i] == ins[i]);
                assert(ins.contains(ins[i]));
                if ins[i] == e {
                    lemma_goes_before_one_way(e, last);
                } else {
                    assert(head.contains(ins[i]));
                    let k = choose|k: int| 0 <= k < head.len() && head[k] == ins[i];
                    assert(sorted[k] == ins[i]);
                    assert(sorted[sorted.len() - 1] == last);
                }
            }
        }
    } else {
        let all = sorted.push(e);
        assert forall|i: int, j: int| 0 <= i < j < all.len() implies !goes_before(
            #[trigger] all[j],
            #[trigger] all[i],
        ) by {
            if j < sorted.len() {
                assert(all[i] == sorted[i] && all[j] == sorted[j]);
            } else {
                assert(all[i] == sorted[i]);
                let last = sorted[sorted.len() - 1];
                if goes_before(e, sorted[i]) {
                    lemma_goes_before_splits(e, last, sorted[i]);
                    if i < sorted.len() - 1 {
                        assert(!goes_before(last, sorted[i]));
                    } else {
                        assert(last == sorted[i]);
                    }
                }
            }
        }
    }
}

/// A listing is in order: directories stand before files, and within each
/// kind no name stands behind one that comes after it when both are
/// lower-cased.
pub proof fn lemma_listing_in_order(entries: Seq<EntryText>)
    ensures
        in_order(arranged(entries)),
    decreases entries.len(),
{
    if entries.len() > 0 {
        lemma_listing_in_order(entries.drop_last());
        if !is_hidden(entries.last().0) {
            lemma_inserted_in_order(arranged(entries.drop_last()), entries.last());
        }
    }
}

/// An entry with the key that it is ordered by.
pub struct KeyedEntry {
    /// The entry's name.
    pub name: String,
    /// Whether the entry is a directory.
    pub is_dir: bool,
    /// The name in lower case.
    pub key: String,
}

/// Whether `a` must stand before `b`, by their keys.
pub open spec fn keyed_before(a: KeyedEntry, b: KeyedEntry) -> bool {
    (a.is_dir && !b.is_dir) || (a.is_dir == b.is_dir && lex_less(a.key@, b.key@))
}

/// A list sorted by key with one more entry.
pub open spec fn keyed_inserted(sorted: Seq<KeyedEntry>, e: KeyedEntry) -> Seq<KeyedEntry>
    decreases sorted.len(),
{
    if sorted.len() > 0 && keyed_before(e, sorted.last()) {
        keyed_inserted(sorted.drop_last(), e).push(sorted.last())
    } else {
        sorted.push(e)
    }
}

/// A list sorted by key, entries with equal keys in the order in which they came.
pub open spec fn keyed_sorted(entries: Seq<KeyedEntry>) -> Seq<KeyedEntry>
    decreases entries.len(),
{
    if entries.len() == 0 {
        Seq::empty()
    } else {
        keyed_inserted(keyed_sorted(entries.drop_last()), entries.last())
    }
}

fn entry_before(a: &KeyedEntry, b: &KeyedEntry) -> (r: bool)
    ensures
        r == keyed_before(*a, *b),
{
    if a.is_dir && !b.is_dir {
        true
    } else if a.is_dir == b.is_dir {
        let x = chars_of(a.key.as_str());
        let y = chars_of(b.key.as_str());
        chars_less(&x, &y)
    } else {
        false
    }
}

/// Inserting behind the entries that need not follow splits the list in two.
proof fn lemma_keyed_inserted_at(sorted: Seq<KeyedEntry>, e: KeyedEntry, pos: int)
    requires
        0 <= pos <= sorted.len(),
        forall|j: int| pos <= j < sorted.len() ==> keyed_before(e, #[trigger] sorted[j]),
        pos > 0 ==> !keyed_before(e, sorted[pos - 1]),
    ensures
        keyed_inserted(sorted, e) == sorted.take(pos).push(e) + sorted.skip(pos),
    decreases sorted.len() - pos,
{
    if pos == sorted.len() {
        assert(sorted.take(pos) == sorted);
        assert(sorted.push(e) + sorted.skip(pos) =~= sorted.push(e));
    } else {
        let head = sorted.drop_last();
        assert(keyed_before(e, sorted[sorted.len() - 1]));
        assert forall|j: int| pos <= j < head.len() implies keyed_before(e, #[trigger] head[j]) by {
            assert(head[j] == sorted[j]);
        }
        if pos > 0 {
            assert(head[pos - 1] == sorted[pos - 1]);
        }
        lemma_keyed_inserted_at(head, e, pos);
        assert(head.take(pos) =~= sorted.take(pos));
        assert((head.take(pos).push(e) + head.skip(pos)).push(sorted.last()) =~= sorted.take(
            pos,
        ).push(e) + sorted.skip(pos));
    }
}

/// Sorts entries by their keys: directories first, then by key in
/// dictionary order, entries with equal keys in the order in which they came.
pub fn sort_keyed(entries: Vec<KeyedEntry>) -> (out: Vec<KeyedEntry>)
    ensures
        out@ == keyed_sorted(entries@),
{
    let mut entries = entries;
    let ghost all = entries@;
    let mut out: Vec<KeyedEntry> = Vec::new();
    let mut taken: usize = 0;
    let total = entries.len();
    proof {
        assert(all.take(0) =~= Seq::<KeyedEntry>::empty());
    }
    while entries.len() > 0
        invariant
            taken + entries.len() == total,
            total == all.len(),
            entries@ == all.skip(taken as int),
            out@ == keyed_sorted(all.take(taken as int)),
        decreases entries.len(),
    {
        let e = entries.remove(0);
        proof {
            assert(e == all[taken as int]);
            assert(all.take(taken + 1).drop_last() == all.take(taken as int));
            assert(all.take(taken + 1).last() == e);
            assert(entries@ =~= all.skip(taken + 1));
        }
        let mut pos: usize = out.len();
        while pos > 0 && entry_before(&e, &out[pos - 1])
            invariant
                pos <= out.len(),
                forall|j: int| pos <= j < out.len() ==> keyed_before(e, #[trigger] out@[j]),
            decreases pos,
        {
            pos -= 1;
        }
        proof {
            lemma_keyed_inserted_at(out@, e, pos as int);
        }
        let ghost before = out@;
        out.insert(pos, e);
        proof {
            assert(out@ =~= before.take(pos as int).push(e) + before.skip(pos as int));
        }
        taken += 1;
    }
    proof {
        assert(all.take(total as int) == all);
    }
    out
}

/// The visible entries of `entries`, each with its lower-cased name as key.
pub open spec fn keyed_visible(entries: Seq<EntryText>) -> Seq<EntryText>
    decreases entries.len(),
{
    if entries.len() == 0 {
        Seq::empty()
    } else if is_hidden(entries.last().0) {
        keyed_visible(entries.drop_last())
    } else {
        keyed_visible(entries.drop_last()).push(entries.last())
    }
}

/// Keyed entries as plain text.
pub open spec fn keyed_views(v: Seq<KeyedEntry>) -> Seq<EntryText> {
    Seq::new(v.len(), |i: int| (v[i].name@, v[i].is_dir))
}

/// Every entry's key is its lower-cased name.
pub open spec fn keys_are_lowercase(v: Seq<KeyedEntry>) -> bool {
    forall|i: int| 0 <= i < v.len() ==> (#[trigger] v[i]).key@ == lowercase_of(v[i].name@)
}

/// With lower-cased names as keys, inserting by key is inserting by the
/// listing order.
proof fn lemma_inserted_views(sorted: Seq<KeyedEntry>, e: KeyedEntry)
    requires
        keys_are_lowercase(sorted),
        e.key@ == lowercase_of(e.name@),
    ensures
        keyed_views(keyed_inserted(sorted, e)) == inserted(keyed_views(sorted), (e.name@, e.is_dir)),
        keys_are_lowercase(keyed_inserted(sorted, e)),
    decreases sorted.len(),
{
    let ev = (e.name@, e.is_dir);
    if sorted.len() > 0 {
        assert(keyed_views(sorted).last() == (sorted.last().name@, sorted.last().is_dir));
        assert(sorted.last().key@ == lowercase_of(sorted.last().name@));
        assert(keyed_before(e, sorted.last()) == goes_before(ev, keyed_views(sorted).last()));
    }
    if sorted.len() > 0 && keyed_before(e, sorted.last()) {
        let head = sorted.drop_last();
        assert forall|i: int| 0 <= i < head.len() implies (#[trigger] head[i]).key@ == lowercase_of(
            head[i].name@,
        ) by {
            assert(head[i] == sorted[i]);
        }
        lemma_inserted_views(head, e);
        assert(keyed_views(sorted).drop_last() =~= keyed_views(head));
        let ins = keyed_inserted(head, e);
        assert(keyed_views(ins.push(sorted.last())) =~= keyed_views(ins).push(
            (sorted.last().name@, sorted.last().is_dir),
        ));
        assert forall|i: int| 0 <= i < ins.push(sorted.last()).len() implies (#[trigger] ins.push(
            sorted.last(),
        )[i]).key@ == lowercase_of(ins.push(sorted.last())[i].name@) by {
            if i < ins.len() {
                assert(ins.push(sorted.last())[i] == ins[i]);
            }
        }
    } else {
        assert(keyed_views(sorted.push(e)) =~= keyed_views(sorted).push(ev));
        assert forall|i: int| 0 <= i < sorted.push(e).len() implies (#[trigger] sorted.push(
            e,
        )[i]).key@ == lowercase_of(sorted.push(e)[i].name@) by {
            if i < sorted.len() {
                assert(sorted.push(e)[i] == sorted[i]);
            }
        }
    }
}

/// With lower-cased names as keys, sorting by key arranges the listing.
proof fn lemma_sorted_views(v: Seq<KeyedEntry>, entries: Seq<EntryText>)
    requires
        keys_are_lowercase(v),
        keyed_views(v) == keyed_visible(entries),
    ensures
        keyed_views(keyed_sorted(v)) == arranged(entries),
        keys_are_lowercase(keyed_sorted(v)),
    decreases entries.len(),
{
    if entries.len() == 0 {
        assert(v.len() == 0) by {
            assert(keyed_views(v).len() == 0);
        }
        assert(keyed_views(keyed_sorted(v)) =~= arranged(entries));
    } else if is_hidden(entries.last().0) {
        lemma_sorted_views(v, entries.drop_last());
    } else {
        let head = v.drop_last();
        assert(keyed_views(v).len() == keyed_visible(entries.drop_last()).len() + 1);
        assert(keyed_views(head) =~= keyed_visible(entries.drop_last())) by {
            assert(keyed_views(v).drop_last() =~= keyed_views(head));
        }
        assert forall|i: int| 0 <= i < head.len() implies (#[trigger] head[i]).key@ == lowercase_of(
            head[i].name@,
        ) by {
            assert(head[i] == v[i]);
        }
        lemma_sorted_views(head, entries.drop_last());
        assert(keyed_views(v).last() == entries.last());
        assert(v.last().key@ == lowercase_of(v.last().name@));
        lemma_inserted_views(keyed_sorted(head), v.last());
    }
}

/// Applies the listing policy to the entries of a directory, given as name
/// and is-directory pairs: entries whose name starts with a dot are left
/// out; directories come first, then files, each in case-insensitive
/// alphabetical order.
pub fn apply_dir_listing_policy(entries: Vec<(String, bool)>) -> (out: Vec<(String, bool)>)
    ensures
        entry_views(out@) == arranged(entry_views(entries@)),
{
    let ghost all = entry_views(entries@);
    let mut keyed: Vec<KeyedEntry> = Vec::new();
    let mut i: usize = 0;
    proof {
        assert(all.take(0) =~= Seq::<EntryText>::empty());
        assert(keyed_views(keyed@) =~= keyed_visible(all.take(0)));
    }
    while i < entries.len()
        invariant
            i <= entries.len(),
            all == entry_views(entries@),
            keyed_views(keyed@) == keyed_visible(all.take(i as int)),
            keys_are_lowercase(keyed@),
        decreases entries.len() - i,
    {
        let ghost before = keyed@;
        proof {
            assert(all.take(i + 1).drop_last() == all.take(i as int));
            assert(all.take(i + 1).last() == (entries@[i as int].0@, entries@[i as int].1));
        }
        let name = &entries[i].0;
        let cs = chars_of(name.as_str());
        let hidden = cs.len() > 0 && cs[0] == '.';
        if !hidden {
            let e = KeyedEntry {
                name: name.clone(),
                is_dir: entries[i].1,
                key: name.as_str().to_lowercase(),
            };
            keyed.push(e);
            proof {
                assert(keyed_views(keyed@) =~= keyed_views(before).push((e.name@, e.is_dir)));
                assert forall|k: int| 0 <= k < keyed@.len() implies (#[trigger] keyed@[k]).key@
                    == lowercase_of(keyed@[k].name@) by {
                    if k < before.len() {
                        assert(keyed@[k] == before[k]);
                    }
                }
            }
        }
        i += 1;
    }
    proof {
        assert(all.take(entries.len() as int) == all);
        lemma_sorted_views(keyed@, all);
    }
    let sorted = sort_keyed(keyed);
    let mut out: Vec<(String, bool)> = Vec::new();
    let mut k: usize = 0;
    while k < sorted.len()
        invariant
            k <= sorted.len(),
            entry_views(out@) == keyed_views(sorted@).take(k as int),
        decreases sorted.len() - k,
    {
        let ghost before = entry_views(out@);
        out.push((sorted[k].name.clone(), sorted[k].is_dir));
        proof {
            assert(entry_views(out@) =~= before.push((sorted@[k as int].name@, sorted@[k as int].is_dir)));
            assert(keyed_views(sorted@).take(k + 1) =~= keyed_views(sorted@).take(k as int).push(
                (sorted@[k as int].name@, sorted@[k as int].is_dir),
            ));
        }
        k += 1;
    }
    proof {
        assert(keyed_views(sorted@).take(sorted.len() as int) == keyed_views(sorted@));
    }
    out
}


// ---------------------------------------------------------------------------
// Which entries of a directory are listed
// ---------------------------------------------------------------------------

/// What was learnt of one entry of a directory.
#[derive(Debug, Clone)]
pub struct RawDirEntry {
    /// The entry's name.
    pub name: String,
    /// Whether the entry is a symbolic link; `None` where its type could not
    /// be read.
    pub is_symlink: Option<bool>,
    /// For a symbolic link: the canonical path of its target, where it has one.
    pub canonical_target: Option<String>,
    /// Whether the entry, links followed, is a directory; `None` where that
    /// could not be read.
    pub is_dir: Option<bool>,
}

/// Whether an entry may be listed: it is not hidden, its type and kind
/// could be read, and if it is a symbolic link its target lies under the root.
pub open spec fn is_listable(e: RawDirEntry, canonical_root: Seq<char>) -> bool {
    &&& !is_hidden(e.name@)
    &&& e.is_symlink is Some
    &&& e.is_symlink == Some(true) ==> (e.canonical_target matches Some(t) && within(
        t@,
        canonical_root,
    ))
    &&& e.is_dir is Some
}

/// The entries that may be listed, as name and is-directory pairs, in the
/// order in which they were read.
pub open spec fn listable(raw: Seq<RawDirEntry>, canonical_root: Seq<char>) -> Seq<EntryText>
    decreases raw.len(),
{
    if raw.len() == 0 {
        Seq::empty()
    } else if is_listable(raw.last(), canonical_root) {
        listable(raw.drop_last(), canonical_root).push((raw.last().name@, raw.last().is_dir->0))
    } else {
        listable(raw.drop_last(), canonical_root)
    }
}

/// Picks the entries of a directory that may be listed. A symbolic link
/// whose target lies outside the root is dropped without a word.
pub fn listable_entries(raw: &Vec<RawDirEntry>, canonical_root: &str) -> (out: Vec<(String, bool)>)
    ensures
        entry_views(out@) == listable(raw@, canonical_root@),
{
    let mut out: Vec<(String, bool)> = Vec::new();
    let mut i: usize = 0;
    proof {
        assert(raw@.take(0) =~= Seq::<RawDirEntry>::empty());
        assert(entry_views(out@) =~= listable(raw@.take(0), canonical_root@));
    }
    while i < raw.len()
        invariant
            i <= raw.len(),
            entry_views(out@) == listable(raw@.take(i as int), canonical_root@),
        decreases raw.len() - i,
    {
        let e = &raw[i];
        let ghost before = entry_views(out@);
        proof {
            assert(raw@.take(i + 1).drop_last() == raw@.take(i as int));
            assert(raw@.take(i + 1).last() == raw@[i as int]);
        }
        let cs = chars_of(e.name.as_str());
        let hidden = cs.len() > 0 && cs[0] == '.';
        let link_ok = match e.is_symlink {
            Some(true) => match &e.canonical_target {
                Some(t) => path_within(t.as_str(), canonical_root),
                None => false,
            },
            Some(false) => true,
            None => false,
        };
        if !hidden && link_ok {
            match e.is_dir {
                Some(d) => {
                    out.push((e.name.clone(), d));
                    proof {
                        assert(entry_views(out@) =~= before.push((e.name@, d)));
                    }
                },
                None => {},
            }
        }
        i += 1;
    }
    proof {
        assert(raw@.take(raw.len() as int) == raw@);
    }
    out
}

// ---------------------------------------------------------------------------
// Breadcrumbs
// ---------------------------------------------------------------------------

/// The pieces that are not empty.
pub open spec fn nonempty_pieces(pieces: Seq<Seq<char>>) -> Seq<Seq<char>>
    decreases pieces.len(),
{
    if pieces.len() == 0 {
        Seq::empty()
    } else if pieces.last().len() == 0 {
        nonempty_pieces(pieces.drop_last())
    } else {
        nonempty_pieces(pieces.drop_last()).push(pieces.last())
    }
}

/// The link target of the last of `segs`: every segment percent-encoded
/// after a `/`.
pub open spec fn crumb_href(segs: Seq<Seq<char>>) -> Seq<char>
    decreases segs.len(),
{
    if segs.len() == 0 {
        Seq::<char>::empty()
    } else {
        crumb_href(segs.drop_last()) + seq!['/'] + percent_encoded_text(segs.last())
    }
}

/// The breadcrumb trail for the segments of a URL path: a link to the root,
/// then one link per segment to the path so far, with a trailing `/`.
pub open spec fn crumbs(segs: Seq<Seq<char>>) -> Seq<char>
    decreases segs.len(),
{
    if segs.len() == 0 {
        "<a href=\"/\">/</a>"@
    } else {
        crumbs(segs.drop_last()) + " / <a href=\""@ + crumb_href(segs) + "/\">"@ + segs.last()
            + "</a>"@
    }
}

/// The breadcrumb trail for a URL prefix.
pub open spec fn breadcrumbs(url_prefix: Seq<char>) -> Seq<char> {
    crumbs(nonempty_pieces(split_on(url_prefix, '/')))
}

/// Builds the breadcrumb trail for a URL prefix such as `/` or `/docs/guide`.
/// Each segment is percent-encoded in its link and shown as it is.
pub fn build_breadcrumbs(url_prefix: &str) -> (out: String)
    ensures
        out@ == breadcrumbs(url_prefix@),
{
    let cs = chars_of(url_prefix);
    let pieces = split_chars(&cs, '/');
    let ghost all = views_of(pieces@);
    let mut out = String::new();
    out.append("<a href=\"/\">/</a>");
    let mut href = String::new();
    let mut i: usize = 0;
    proof {
        assert(all.take(0) =~= Seq::<Seq<char>>::empty());
    }
    while i < pieces.len()
        invariant
            i <= pieces.len(),
            all == views_of(pieces@),
            out@ == crumbs(nonempty_pieces(all.take(i as int))),
            href@ == crumb_href(nonempty_pieces(all.take(i as int))),
        decreases pieces.len() - i,
    {
        let ghost segs = nonempty_pieces(all.take(i as int));
        proof {
            assert(all.take(i + 1).drop_last() == all.take(i as int));
            assert(all.take(i + 1).last() == pieces@[i as int]@);
        }
        if pieces[i].len() > 0 {
            let seg = string_of(&pieces[i]);
            let enc = percent_encode_segment(seg.as_str());
            href.push('/');
            href.append(enc.as_str());
            out.append(" / <a href=\"");
            out.append(href.as_str());
            out.append("/\">");
            out.append(seg.as_str());
            out.append("</a>");
            proof {
                let next = segs.push(seg@);
                assert(next.drop_last() == segs);
                assert(href@ =~= crumb_href(next));
                assert(out@ =~= crumbs(next));
            }
        }
        i += 1;
    }
    proof {
        assert(all.take(pieces.len() as int) == all);
    }
    out
}

// ---------------------------------------------------------------------------
// The index page
// ---------------------------------------------------------------------------

/// The URL prefix with a `/` at its end.
pub open spec fn with_trailing_slash(url_prefix: Seq<char>) -> Seq<char> {
    if url_prefix.len() > 0 && url_prefix.last() == '/' {
        url_prefix
    } else {
        url_prefix.push('/')
    }
}

/// The link target of an entry: the prefix, the entry's name percent-encoded,
/// and a `/` behind a directory.
pub open spec fn entry_href(base: Seq<char>, e: EntryText) -> Seq<char> {
    if e.1 {
        base + percent_encoded_text(e.0) + seq!['/']
    } else {
        base + percent_encoded_text(e.0)
    }
}

/// The list items of an index page.
pub open spec fn index_items(base: Seq<char>, entries: Seq<EntryText>) -> Seq<char>
    decreases entries.len(),
{
    if entries.len() == 0 {
        Seq::<char>::empty()
    } else {
        index_items(base, entries.drop_last()) + "<li><a href=\""@ + entry_href(
            base,
            entries.last(),
        ) + "\">"@ + entries.last().0 + "</a></li>"@
    }
}

/// The index page of a directory at `url_prefix` with the given entries.
pub open spec fn index_page(url_prefix: Seq<char>, entries: Seq<EntryText>) -> Seq<char> {
    "<!DOCTYPE html><html lang=\"en\"><head><meta charset=\"utf-8\"><title>Index of "@
        + url_prefix + "</title></head><body><nav>"@ + breadcrumbs(url_prefix)
        + "</nav><h1>Index of "@ + url_prefix + "</h1><ul>"@ + index_items(
        with_trailing_slash(url_prefix),
        entries,
    ) + "</ul></body></html>"@
}

fn trailing_slash_base(url_prefix: &str) -> (base: String)
    ensures
        base@ == with_trailing_slash(url_prefix@),
{
    let cs = chars_of(url_prefix);
    let mut base = url_prefix.to_owned();
    if !(cs.len() > 0 && cs[cs.len() - 1] == '/') {
        base.push('/');
    }
    base
}

fn entry_link(base: &str, name: &str, is_dir: bool) -> (href: String)
    ensures
        href@ == entry_href(base@, (name@, is_dir)),
{
    let mut href = base.to_owned();
    let enc = percent_encode_segment(name);
    href.append(enc.as_str());
    if is_dir {
        href.push('/');
    }
    proof {
        assert(href@ =~= entry_href(base@, (name@, is_dir)));
    }
    href
}

/// Builds the index page of a directory: breadcrumbs, a heading, and one
/// link per entry, in the order given.
pub fn directory_index_page(url_prefix: &str, entries: &Vec<(String, bool)>) -> (out: String)
    ensures
        out@ == index_page(url_prefix@, entry_views(entries@)),
{
    let trail = build_breadcrumbs(url_prefix);
    let base = trailing_slash_base(url_prefix);
    let mut out = String::new();
    out.append(
        "<!DOCTYPE html><html lang=\"en\"><head><meta charset=\"utf-8\"><title>Index of ",
    );
    out.append(url_prefix);
    out.append("</title></head><body><nav>");
    out.append(trail.as_str());
    out.append("</nav><h1>Index of ");
    out.append(url_prefix);
    out.append("</h1><ul>");
    let ghost lead = out@;
    let ghost all = entry_views(entries@);
    let mut i: usize = 0;
    proof {
        assert(all.take(0) =~= Seq::<EntryText>::empty());
        assert(out@ =~= lead + index_items(base@, all.take(0)));
    }
    while i < entries.len()
        invariant
            i <= entries.len(),
            all == entry_views(entries@),
            out@ == lead + index_items(base@, all.take(i as int)),
        decreases entries.len() - i,
    {
        proof {
            assert(all.take(i + 1).drop_last() == all.take(i as int));
            assert(all.take(i + 1).last() == (entries@[i as int].0@, entries@[i as int].1));
        }
        let href = entry_link(base.as_str(), entries[i].0.as_str(), entries[i].1);
        out.append("<li><a href=\"");
        out.append(href.as_str());
        out.append("\">");
        out.append(entries[i].0.as_str());
        out.append("</a></li>");
        proof {
            assert(out@ =~= lead + (index_items(base@, all.take(i as int)) + "<li><a href=\""@
                + href@ + "\">"@ + entries@[i as int].0@ + "</a></li>"@));
        }
        i += 1;
    }
    out.append("</ul></body></html>");
    proof {
        assert(all.take(entries.len() as int) == all);
        assert(out@ =~= index_page(url_prefix@, all));
    }
    out
}

// ---------------------------------------------------------------------------
// The page for a path that was not found
// ---------------------------------------------------------------------------

/// The list items of the listing on a not-found page, all text escaped.
pub open spec fn parent_items(base: Seq<char>, entries: Seq<EntryText>) -> Seq<char>
    decreases entries.len(),
{
    if entries.len() == 0 {
        Seq::<char>::empty()
    } else {
        parent_items(base, entries.drop_last()) + "<li><a href=\""@ + escaped_text(
            entry_href(base, entries.last()),
        ) + "\">"@ + escaped_text(entries.last().0) + "</a></li>"@
    }
}

/// The listing of the nearest parent on a not-found page; nothing where the
/// parent has no entries to show.
pub open spec fn parent_listing(url_prefix: Seq<char>, entries: Seq<EntryText>) -> Seq<char> {
    if entries.len() == 0 {
        Seq::<char>::empty()
    } else {
        "<h2>Contents of "@ + escaped_text(url_prefix) + "</h2><ul>"@ + parent_items(
            with_trailing_slash(url_prefix),
            entries,
        ) + "</ul>"@
    }
}

/// Builds the listing of the nearest existing parent for a not-found page.
pub fn build_nearest_parent_listing(url_prefix: &str, entries: &Vec<(String, bool)>) -> (out:
    String)
    ensures
        out@ == parent_listing(url_prefix@, entry_views(entries@)),
{
    let mut out = String::new();
    if entries.len() == 0 {
        return out;
    }
    let base = trailing_slash_base(url_prefix);
    out.append("<h2>Contents of ");
    push_escaped_text(&mut out, url_prefix);
    out.append("</h2><ul>");
    let ghost lead = out@;
    let ghost all = entry_views(entries@);
    let mut i: usize = 0;
    proof {
        assert(all.take(0) =~= Seq::<EntryText>::empty());
        assert(out@ =~= lead + parent_items(base@, all.take(0)));
    }
    while i < entries.len()
        invariant
            i <= entries.len(),
            all == entry_views(entries@),
            out@ == lead + parent_items(base@, all.take(i as int)),
        decreases entries.len() - i,
    {
        proof {
            assert(all.take(i + 1).drop_last() == all.take(i as int));
            assert(all.take(i + 1).last() == (entries@[i as int].0@, entries@[i as int].1));
        }
        let href = entry_link(base.as_str(), entries[i].0.as_str(), entries[i].1);
        out.append("<li><a href=\"");
        push_escaped_text(&mut out, href.as_str());
        out.append("\">");
        push_escaped_text(&mut out, entries[i].0.as_str());
        out.append("</a></li>");
        proof {
            assert(out@ =~= lead + (parent_items(base@, all.take(i as int)) + "<li><a href=\""@
                + escaped_text(href@) + "\">"@ + escaped_text(entries@[i as int].0@)
                + "</a></li>"@));
        }
        i += 1;
    }
    out.append("</ul>");
    proof {
        assert(all.take(entries.len() as int) == all);
        assert(out@ =~= parent_listing(url_prefix@, all));
    }
    out
}

/// The not-found page up to the requested path.
pub const NOT_FOUND_OPEN: &'static str =
    "<!DOCTYPE html><html lang=\"en\"><head><meta charset=\"utf-8\"><title>404 Not Found</title><link rel=\"stylesheet\" href=\"/assets/mdmd.css\"></head><body><main class=\"content\"><h1>404 Not Found</h1><p>The requested path was not found:</p><pre><code>";

/// From the requested path to the link to the entry document.
pub const NOT_FOUND_OPTIONS: &'static str =
    "</code></pre><h2>Recovery options</h2><ul><li><a href=\"/\">Root index</a></li><li><a href=\"";

/// From the link to the entry document to the link to the nearest parent.
pub const NOT_FOUND_PARENT: &'static str = "\">Entry document</a></li><li><a href=\"";

/// The end of the not-found page.
pub const NOT_FOUND_CLOSE: &'static str = "</main></body></html>";

/// The URL of a directory that lies `parent_url` below the root: `/` for the
/// root itself, else the URL with a `/` behind it.
pub open spec fn parent_link(parent_url: Seq<char>) -> Seq<char> {
    if parent_url == seq!['/'] {
        parent_url
    } else {
        parent_url.push('/')
    }
}

/// The page for a path that was not found: the path, links to the root, to
/// the entry document and to the nearest existing parent, and the listing of
/// that parent.
pub open spec fn not_found_page(
    norm_display: Seq<char>,
    entry_url_path: Seq<char>,
    parent_url: Seq<char>,
    listing_html: Seq<char>,
) -> Seq<char> {
    NOT_FOUND_OPEN@ + escaped_text(seq!['/'] + norm_display) + NOT_FOUND_OPTIONS@ + escaped_text(
        entry_url_path,
    ) + NOT_FOUND_PARENT@ + escaped_text(parent_url) + "\">Nearest parent: "@ + escaped_text(
        parent_url,
    ) + "</a></li></ul>"@ + listing_html + NOT_FOUND_CLOSE@
}

/// The URL under which the nearest existing parent of a missing path is
/// reached: its path below the root, percent-encoded, between slashes; `/`
/// where it is the root or does not lie under it.
pub fn nearest_parent_url(nearest_parent: &str, canonical_root: &str) -> (url: String)
    ensures
        url@ == parent_link(
            match crate::paths::stripped(nearest_parent@, canonical_root@) {
                Some(rest) => url_path_of(rest),
                None => seq!['/'],
            },
        ),
{
    let u = match derive_entry_url_path(nearest_parent, canonical_root) {
        Ok(u) => u,
        Err(_) => {
            let mut r = String::new();
            r.push('/');
            r
        },
    };
    let cs = chars_of(u.as_str());
    let is_root = cs.len() == 1 && cs[0] == '/';
    proof {
        if is_root {
            assert(u@ =~= seq!['/']);
        }
    }
    let mut out = u;
    if !is_root {
        out.push('/');
    }
    out
}

/// Builds the page for a path that was not found.
pub fn not_found_page_html(
    norm_display: &str,
    entry_url_path: &str,
    parent_url: &str,
    listing_html: &str,
) -> (out: String)
    ensures
        out@ == not_found_page(norm_display@, entry_url_path@, parent_url@, listing_html@),
{
    let mut requested = String::new();
    requested.push('/');
    requested.append(norm_display);
    let mut out = String::new();
    out.append(NOT_FOUND_OPEN);
    push_escaped_text(&mut out, requested.as_str());
    out.append(NOT_FOUND_OPTIONS);
    push_escaped_text(&mut out, entry_url_path);
    out.append(NOT_FOUND_PARENT);
    push_escaped_text(&mut out, parent_url);
    out.append("\">Nearest parent: ");
    push_escaped_text(&mut out, parent_url);
    out.append("</a></li></ul>");
    out.append(listing_html);
    out.append(NOT_FOUND_CLOSE);
    proof {
        assert(requested@ =~= seq!['/'] + norm_display@);
        assert(out@ =~= not_found_page(
            norm_display@,
            entry_url_path@,
            parent_url@,
            listing_html@,
        ));
    }
    out
}

} // verus!
