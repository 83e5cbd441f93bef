//! The listing of a directory: which entries it shows, in what order, and as what text.

use vstd::prelude::*;
use vstd::utf8::encode_utf8;

use crate::bytes::{
    comes_before, law_beginning_comes_first, law_first_difference_decides,
    lemma_precedes_irreflexive, lemma_precedes_total, lemma_precedes_transitive, precedes,
};
use crate::text::{
    is_white_space, law_truncated_fits, lowercase, to_lowercase, trim_end, trimmed_end, truncate,
    truncated,
};

verus! {

/// One line of a listing: a name and whether it is the name of a directory.
#[derive(Debug)]
pub struct Entry {
    pub name: String,
    pub is_dir: bool,
}

impl Clone for Entry {
    fn clone(&self) -> (copy: Self)
        ensures
            copy == *self,
    {
        Entry { name: self.name.clone(), is_dir: self.is_dir }
    }
}

/// What entries are sorted by: being a directory, and the bytes of the name in lower case.
pub open spec fn sort_key(entry: Entry) -> (bool, Seq<u8>) {
    (entry.is_dir, encode_utf8(lowercase(entry.name@)))
}

/// The order of keys: directories come first, then the lexicographic order of the names.
pub open spec fn key_before(a: (bool, Seq<u8>), b: (bool, Seq<u8>)) -> bool {
    if a.0 != b.0 {
        a.0
    } else {
        precedes(a.1, b.1)
    }
}

/// Whether no entry stands behind one that it should come before.
pub open spec fn is_sorted(items: Seq<Entry>) -> bool {
    forall|i: int, j: int|
        0 <= i < j < items.len() ==> !key_before(
            sort_key(#[trigger] items[j]),
            sort_key(#[trigger] items[i]),
        )
}

/// The entries with a given key, in the order in which they stand.
pub open spec fn with_key(items: Seq<Entry>, key: (bool, Seq<u8>)) -> Seq<Entry> {
    items.filter(|entry: Entry| sort_key(entry) == key)
}

/// Whether `after` is `before` sorted, with entries of the same key left in their order.
pub open spec fn is_stable_sort(before: Seq<Entry>, after: Seq<Entry>) -> bool {
    &&& is_sorted(after)
    &&& forall|key: (bool, Seq<u8>)| #[trigger] with_key(after, key) == with_key(before, key)
}

proof fn lemma_key_irreflexive(a: (bool, Seq<u8>))
    ensures
        !key_before(a, a),
{
    lemma_precedes_irreflexive(a.1);
}

proof fn lemma_key_transitive(a: (bool, Seq<u8>), b: (bool, Seq<u8>), c: (bool, Seq<u8>))
    requires
        key_before(a, b),
        key_before(b, c),
    ensures
        key_before(a, c),
{
    if a.0 == b.0 && b.0 == c.0 {
        lemma_precedes_transitive(a.1, b.1, c.1);
    }
}

proof fn lemma_key_total(a: (bool, Seq<u8>), b: (bool, Seq<u8>))
    ensures
        a == b || key_before(a, b) || key_before(b, a),
{
    lemma_precedes_total(a.1, b.1);
}

/// A key that does not come after another comes before all that the other comes before.
proof fn lemma_key_not_after(a: (bool, Seq<u8>), b: (bool, Seq<u8>), c: (bool, Seq<u8>))
    requires
        !key_before(b, a),
        key_before(b, c),
    ensures
        key_before(a, c),
{
    lemma_key_total(a, b);
    if key_before(a, b) {
        lemma_key_transitive(a, b, c);
    }
}

/// Two sorted sequences merged into one, entries of the first before those of the second with the
/// same key.
spec fn merged(left: Seq<Entry>, right: Seq<Entry>) -> Seq<Entry>
    decreases left.len() + right.len(),
{
    if left.len() == 0 {
        right
    } else if right.len() == 0 {
        left
    } else if key_before(sort_key(right.last()), sort_key(left.last())) {
        merged(left.drop_last(), right).push(left.last())
    } else {
        merged(left, right.drop_last()).push(right.last())
    }
}

proof fn lemma_with_key_push(items: Seq<Entry>, entry: Entry, key: (bool, Seq<u8>))
    ensures
        with_key(items.push(entry), key) == if sort_key(entry) == key {
            with_key(items, key).push(entry)
        } else {
            with_key(items, key)
        },
{
    reveal(Seq::filter);
    assert(items.push(entry).drop_last() == items);
}

proof fn lemma_with_key_concat(a: Seq<Entry>, b: Seq<Entry>, key: (bool, Seq<u8>))
    ensures
        with_key(a + b, key) == with_key(a, key) + with_key(b, key),
{
    Seq::filter_distributes_over_add(a, b, |entry: Entry| sort_key(entry) == key);
}

/// No entry of a sorted sequence has a key that its last entry comes before.
proof fn lemma_no_key_behind_last(items: Seq<Entry>, key: (bool, Seq<u8>))
    requires
        is_sorted(items),
        items.len() > 0,
        key_before(sort_key(items.last()), key),
    ensures
        with_key(items, key) == Seq::<Entry>::empty(),
    decreases items.len(),
{
    reveal(Seq::filter);
    lemma_key_irreflexive(key);
    let rest = items.drop_last();
    assert(items == rest.push(items.last()));
    lemma_with_key_push(rest, items.last(), key);
    if rest.len() > 0 {
        assert(rest.last() == items[items.len() - 2]);
        lemma_key_not_after(sort_key(rest.last()), sort_key(items.last()), key);
        lemma_no_key_behind_last(rest, key);
    }
}

proof fn lemma_merged_with_key(left: Seq<Entry>, right: Seq<Entry>, key: (bool, Seq<u8>))
    requires
        is_sorted(left),
        is_sorted(right),
    ensures
        with_key(merged(left, right), key) == with_key(left, key) + with_key(right, key),
    decreases left.len() + right.len(),
{
    reveal(Seq::filter);
    if left.len() == 0 || right.len() == 0 {
    } else if key_before(sort_key(right.last()), sort_key(left.last())) {
        let l = left.drop_last();
        lemma_merged_with_key(l, right, key);
        lemma_with_key_push(merged(l, right), left.last(), key);
        lemma_with_key_push(l, left.last(), key);
        assert(left == l.push(left.last()));
        if sort_key(left.last()) == key {
            lemma_no_key_behind_last(right, key);
        }
    } else {
        let r = right.drop_last();
        lemma_merged_with_key(left, r, key);
        lemma_with_key_push(merged(left, r), right.last(), key);
        lemma_with_key_push(r, right.last(), key);
        assert(right == r.push(right.last()));
    }
}

/// Whether no entry has a key that the given key comes before.
spec fn none_behind(items: Seq<Entry>, key: (bool, Seq<u8>)) -> bool {
    forall|i: int| 0 <= i < items.len() ==> !key_before(key, sort_key(#[trigger] items[i]))
}

proof fn lemma_merged_none_behind(left: Seq<Entry>, right: Seq<Entry>, key: (bool, Seq<u8>))
    requires
        none_behind(left, key),
        none_behind(right, key),
    ensures
        none_behind(merged(left, right), key),
    decreases left.len() + right.len(),
{
    if left.len() == 0 || right.len() == 0 {
    } else if key_before(sort_key(right.last()), sort_key(left.last())) {
        lemma_merged_none_behind(left.drop_last(), right, key);
    } else {
        lemma_merged_none_behind(left, right.drop_last(), key);
    }
}

/// In a sorted sequence nothing stands behind the key of the last entry, nor behind a key that
/// does not come before it.
proof fn lemma_sorted_none_behind(items: Seq<Entry>, key: (bool, Seq<u8>))
    requires
        is_sorted(items),
        items.len() > 0,
        !key_before(key, sort_key(items.last())),
    ensures
        none_behind(items, key),
{
    let last = sort_key(items.last());
    assert forall|i: int| 0 <= i < items.len() implies !key_before(
        key,
        sort_key(#[trigger] items[i]),
    ) by {
        if i < items.len() - 1 && key_before(key, sort_key(items[i])) {
            lemma_key_not_after(last, key, sort_key(items[i]));
        }
    }
}

proof fn lemma_merged_sorted(left: Seq<Entry>, right: Seq<Entry>)
    requires
        is_sorted(left),
        is_sorted(right),
    ensures
        is_sorted(merged(left, right)),
    decreases left.len() + right.len(),
{
    if left.len() == 0 || right.len() == 0 {
    } else {
        let l = sort_key(left.last());
        let r = sort_key(right.last());
        lemma_key_irreflexive(l);
        lemma_key_irreflexive(r);
        if key_before(r, l) {
            if key_before(l, r) {
                lemma_key_transitive(l, r, l);
            }
            lemma_sorted_none_behind(left, l);
            lemma_sorted_none_behind(right, l);
            lemma_merged_sorted(left.drop_last(), right);
            lemma_merged_none_behind(left.drop_last(), right, l);
        } else {
            lemma_sorted_none_behind(left, r);
            lemma_sorted_none_behind(right, r);
            lemma_merged_sorted(left, right.drop_last());
            lemma_merged_none_behind(left, right.drop_last(), r);
        }
    }
}

/// Two stable sorts of the same entries are the same: the order of a listing is determined.
pub proof fn law_stable_sort_is_unique(before: Seq<Entry>, a: Seq<Entry>, b: Seq<Entry>)
    requires
        is_stable_sort(before, a),
        is_stable_sort(before, b),
    ensures
        a == b,
{
    lemma_same_groups_same_order(a, b);
}

proof fn lemma_same_groups_same_order(a: Seq<Entry>, b: Seq<Entry>)
    requires
        is_sorted(a),
        is_sorted(b),
        forall|key: (bool, Seq<u8>)| #[trigger] with_key(a, key) == with_key(b, key),
    ensures
        a == b,
    decreases a.len(),
{
    if a.len() == 0 || b.len() == 0 {
        reveal(Seq::filter);
        if a.len() > 0 {
            lemma_last_with_key(a);
            assert(with_key(a, sort_key(a.last())) == with_key(b, sort_key(a.last())));
        }
        if b.len() > 0 {
            lemma_last_with_key(b);
            assert(with_key(a, sort_key(b.last())) == with_key(b, sort_key(b.last())));
        }
        assert(a == b);
    } else {
        let ka = sort_key(a.last());
        let kb = sort_key(b.last());
        lemma_last_with_key(a);
        lemma_last_with_key(b);
        assert(with_key(a, ka) == with_key(b, ka));
        assert(with_key(a, kb) == with_key(b, kb));
        lemma_key_total(ka, kb);
        if key_before(ka, kb) {
            lemma_no_key_behind_last(a, kb);
        }
        if key_before(kb, ka) {
            lemma_no_key_behind_last(b, ka);
        }
        assert(a.last() == b.last());
        let a0 = a.drop_last();
        let b0 = b.drop_last();
        assert(a == a0.push(a.last()) && b == b0.push(b.last()));
        assert forall|key: (bool, Seq<u8>)| #[trigger] with_key(a0, key) == with_key(b0, key) by {
            lemma_with_key_push(a0, a.last(), key);
            lemma_with_key_push(b0, b.last(), key);
            assert(with_key(a, key) == with_key(b, key));
            assert(with_key(a0, key).push(a.last()).drop_last() == with_key(a0, key));
            assert(with_key(b0, key).push(b.last()).drop_last() == with_key(b0, key));
        }
        lemma_same_groups_same_order(a0, b0);
    }
}

proof fn lemma_last_with_key(items: Seq<Entry>)
    requires
        items.len() > 0,
    ensures
        with_key(items, sort_key(items.last())).len() > 0,
        with_key(items, sort_key(items.last())).last() == items.last(),
{
    assert(items == items.drop_last().push(items.last()));
    lemma_with_key_push(items.drop_last(), items.last(), sort_key(items.last()));
}

/// In a listing that is in order the directories come first.
pub proof fn law_directories_come_first(items: Seq<Entry>, i: int, j: int)
    requires
        is_sorted(items),
        0 <= i < j < items.len(),
        items[j].is_dir,
    ensures
        items[i].is_dir,
{
}

/// Sorting neither loses, nor adds, nor changes an entry.
pub proof fn law_stable_sort_permutes(before: Seq<Entry>, after: Seq<Entry>)
    requires
        is_stable_sort(before, after),
    ensures
        after.to_multiset() == before.to_multiset(),
{
    assert forall|entry: Entry|
        after.to_multiset().count(entry) == #[trigger] before.to_multiset().count(entry) by {
        let key = sort_key(entry);
        lemma_count_with_key(before, entry);
        lemma_count_with_key(after, entry);
        assert(with_key(after, key) == with_key(before, key));
    }
    assert(after.to_multiset() =~= before.to_multiset());
}

proof fn lemma_count_with_key(items: Seq<Entry>, entry: Entry)
    ensures
        items.to_multiset().count(entry) == with_key(items, sort_key(entry)).to_multiset().count(
            entry,
        ),
    decreases items.len(),
{
    broadcast use vstd::seq_lib::group_to_multiset_ensures;

    reveal(Seq::filter);
    if items.len() > 0 {
        let rest = items.drop_last();
        assert(items == rest.push(items.last()));
        lemma_with_key_push(rest, items.last(), sort_key(entry));
        lemma_count_with_key(rest, entry);
    }
}

/// An entry with its name in lower case.
struct Keyed {
    lower: String,
    entry: Entry,
}

impl Keyed {
    spec fn wf(self) -> bool {
        self.lower@ == lowercase(self.entry.name@)
    }

    fn before(&self, other: &Keyed) -> (before: bool)
        requires
            self.wf(),
            other.wf(),
        ensures
            before == key_before(sort_key(self.entry), sort_key(other.entry)),
    {
        if self.entry.is_dir != other.entry.is_dir {
            self.entry.is_dir
        } else {
            comes_before(self.lower.as_str().as_bytes(), other.lower.as_str().as_bytes())
        }
    }
}

spec fn all_wf(items: Seq<Keyed>) -> bool {
    forall|i: int| 0 <= i < items.len() ==> (#[trigger] items[i]).wf()
}

spec fn entries(items: Seq<Keyed>) -> Seq<Entry> {
    items.map_values(|item: Keyed| item.entry)
}

fn reversed(items: Vec<Keyed>) -> (out: Vec<Keyed>)
    ensures
        out@ == items@.reverse(),
{
    let mut items = items;
    let ghost all = items@;
    let mut out: Vec<Keyed> = Vec::new();
    while items.len() > 0
        invariant
            items@.len() + out@.len() == all.len(),
            items@ == all.take(items@.len() as int),
            out@ == all.reverse().take(out@.len() as int),
        decreases items@.len(),
    {
        if let Some(item) = items.pop() {
            out.push(item);
        }
    }
    assert(all.reverse().take(all.len() as int) == all.reverse());
    out
}

/// Merges two sorted sequences.
fn merge(left: Vec<Keyed>, right: Vec<Keyed>) -> (out: Vec<Keyed>)
    requires
        all_wf(left@),
        all_wf(right@),
    ensures
        all_wf(out@),
        entries(out@) == merged(entries(left@), entries(right@)),
{
    let mut left = left;
    let mut right = right;
    let ghost goal = merged(entries(left@), entries(right@));
    let mut back: Vec<Keyed> = Vec::new();
    assert(goal == goal + entries(back@.reverse()));
    while left.len() > 0 && right.len() > 0
        invariant
            all_wf(left@),
            all_wf(right@),
            all_wf(back@),
            goal == merged(entries(left@), entries(right@)) + entries(back@.reverse()),
        decreases left@.len() + right@.len(),
    {
        let ghost l = entries(left@);
        let ghost r = entries(right@);
        let ghost tail = entries(back@.reverse());
        let from_left: bool = right[right.len() - 1].before(&left[left.len() - 1]);
        let taken = if from_left {
            left.pop()
        } else {
            right.pop()
        };
        if let Some(item) = taken {
            proof {
                assert(entries(back@.push(item).reverse()) == seq![item.entry] + tail);
                if from_left {
                    assert(entries(left@) == l.drop_last());
                    assert(merged(l.drop_last(), r).push(item.entry) + tail == merged(
                        l.drop_last(),
                        r,
                    ) + (seq![item.entry] + tail));
                } else {
                    assert(entries(right@) == r.drop_last());
                    assert(merged(l, r.drop_last()).push(item.entry) + tail == merged(
                        l,
                        r.drop_last(),
                    ) + (seq![item.entry] + tail));
                }
            }
            back.push(item);
        }
    }
    let mut front = if left.len() > 0 {
        left
    } else {
        right
    };
    let mut rest = reversed(back);
    let ghost f = front@;
    let ghost b = rest@;
    front.append(&mut rest);
    assert(entries(front@) == entries(f) + entries(b));
    front
}

/// Sorts entries by their keys, entries of the same key in their order.
fn merge_sort(items: Vec<Keyed>) -> (out: Vec<Keyed>)
    requires
        all_wf(items@),
    ensures
        all_wf(out@),
        is_stable_sort(entries(items@), entries(out@)),
    decreases items@.len(),
{
    if items.len() < 2 {
        return items;
    }
    let ghost all = entries(items@);
    let mut left = items;
    let mid: usize = left.len() / 2;
    let right = left.split_off(mid);
    let ghost l0 = entries(left@);
    let ghost r0 = entries(right@);
    assert(all == l0 + r0);
    let left = merge_sort(left);
    let right = merge_sort(right);
    let out = merge(left, right);
    proof {
        let l = entries(left@);
        let r = entries(right@);
        lemma_merged_sorted(l, r);
        assert forall|key: (bool, Seq<u8>)| #[trigger]
            with_key(entries(out@), key) == with_key(all, key) by {
            lemma_merged_with_key(l, r, key);
            lemma_with_key_concat(l0, r0, key);
            assert(with_key(l, key) == with_key(l0, key));
            assert(with_key(r, key) == with_key(r0, key));
        }
    }
    out
}

/// Puts the entries of a listing in order: directories first, then by name without regard to
/// case, and entries that this leaves equal as they stood.
pub fn sort_items(items: &mut Vec<Entry>)
    ensures
        is_stable_sort(old(items)@, final(items)@),
        final(items)@.to_multiset() == old(items)@.to_multiset(),
{
    let ghost all = items@;
    let mut keyed: Vec<Keyed> = Vec::new();
    while items.len() > 0
        invariant
            items@.len() + keyed@.len() == all.len(),
            items@ == all.take(items@.len() as int),
            entries(keyed@) == all.reverse().take(keyed@.len() as int),
            all_wf(keyed@),
        decreases items@.len(),
    {
        if let Some(entry) = items.pop() {
            let lower = to_lowercase(entry.name.as_str());
            let ghost before = keyed@;
            keyed.push(Keyed { lower, entry });
            assert(entries(keyed@) == entries(before).push(entry));
        }
    }
    assert(entries(keyed@) == all.reverse());
    let ghost backward = keyed@;
    let ordered = reversed(keyed);
    assert(entries(ordered@) == entries(backward).reverse());
    assert(entries(ordered@) == all);
    let sorted = merge_sort(ordered);
    let mut rest = reversed(sorted);
    while rest.len() > 0
        invariant
            items@.len() + rest@.len() == sorted@.len(),
            rest@ == sorted@.reverse().take(rest@.len() as int),
            items@ == entries(sorted@).take(items@.len() as int),
        decreases rest@.len(),
    {
        if let Some(item) = rest.pop() {
            items.push(item.entry);
        }
    }
    assert(items@ == entries(sorted@));
    proof {
        law_stable_sort_permutes(all, items@);
    }
}

/// What the scan of a directory found at one place: something unreadable, or a name and, where
/// its metadata could be read, whether it is a directory.
pub enum ScanItem {
    Unreadable,
    Found { name: String, is_dir: Option<bool> },
}

/// Whether a name is one that listings leave out unless told otherwise.
pub open spec fn is_hidden(name: Seq<char>) -> bool {
    name.len() > 0 && name[0] == '.'
}

/// Whether a listing shows what a scan found.
pub open spec fn is_shown(item: ScanItem, show_hidden: bool) -> bool {
    item matches ScanItem::Found { name, is_dir } && is_dir is Some && (show_hidden || !is_hidden(
        name@,
    ))
}

/// The entry for something that a scan found and a listing shows.
pub open spec fn entry_of(item: ScanItem) -> Entry {
    Entry { name: item->Found_name, is_dir: item->Found_is_dir->0 }
}

/// The entries that a listing shows of a scan, in the order of the scan.
pub open spec fn shown_entries(scan: Seq<ScanItem>, show_hidden: bool) -> Seq<Entry> {
    scan.filter(|item: ScanItem| is_shown(item, show_hidden)).map_values(
        |item: ScanItem| entry_of(item),
    )
}

proof fn lemma_shown_entries_push(scan: Seq<ScanItem>, item: ScanItem, show_hidden: bool)
    ensures
        shown_entries(scan.push(item), show_hidden) == if is_shown(item, show_hidden) {
            shown_entries(scan, show_hidden).push(entry_of(item))
        } else {
            shown_entries(scan, show_hidden)
        },
{
    reveal(Seq::filter);
    assert(scan.push(item).drop_last() == scan);
    if is_shown(item, show_hidden) {
        assert(shown_entries(scan.push(item), show_hidden) =~= shown_entries(
            scan,
            show_hidden,
        ).push(entry_of(item)));
    }
}

/// Picks the entries that a listing shows out of the scan of a directory.
pub fn read_dir_items(scan: &[ScanItem], show_hidden: bool) -> (items: Vec<Entry>)
    ensures
        items@ == shown_entries(scan@, show_hidden),
{
    let mut out: Vec<Entry> = Vec::new();
    let mut i: usize = 0;
    proof {
        reveal(Seq::filter);
        assert(shown_entries(scan@.take(0), show_hidden) =~= Seq::<Entry>::empty());
    }
    while i < scan.len()
        invariant
            i <= scan.len(),
            out@ == shown_entries(scan@.take(i as int), show_hidden),
        decreases scan.len() - i,
    {
        proof {
            assert(scan@.take(i + 1) == scan@.take(i as int).push(scan@[i as int]));
            lemma_shown_entries_push(scan@.take(i as int), scan@[i as int], show_hidden);
        }
        match &scan[i] {
            ScanItem::Unreadable => {},
            ScanItem::Found { name, is_dir } => {
                let hidden: bool = !name.as_str().is_empty() && name.as_str().get_char(0) == '.';
                if show_hidden || !hidden {
                    if let Some(is_dir) = is_dir {
                        out.push(Entry { name: name.clone(), is_dir: *is_dir });
                    }
                }
            },
        }
        i += 1;
    }
    assert(scan@.take(scan@.len() as int) == scan@);
    out
}

/// A listing without hidden names is the full listing less the entries with hidden names.
pub proof fn law_hidden_names_are_left_out(scan: Seq<ScanItem>)
    ensures
        shown_entries(scan, false) == shown_entries(scan, true).filter(
            |entry: Entry| !is_hidden(entry.name@),
        ),
    decreases scan.len(),
{
    reveal(Seq::filter);
    if scan.len() > 0 {
        let rest = scan.drop_last();
        let item = scan.last();
        assert(scan == rest.push(item));
        law_hidden_names_are_left_out(rest);
        lemma_shown_entries_push(rest, item, false);
        lemma_shown_entries_push(rest, item, true);
        if is_shown(item, true) {
            let all = shown_entries(rest, true);
            assert(all.push(entry_of(item)).drop_last() == all);
        }
    }
}

/// The number of columns of a listing.
pub const COLUMNS: usize = 3;

/// The least width of a column.
pub const MIN_COLUMN_WIDTH: usize = 12;

/// The width of a column of a listing in an area of the given width.
pub open spec fn column_width(width: nat) -> nat {
    if width / (COLUMNS as nat) < MIN_COLUMN_WIDTH {
        MIN_COLUMN_WIDTH as nat
    } else {
        width / (COLUMNS as nat)
    }
}

/// A text with spaces behind it up to a given number of bytes.
pub open spec fn padded(text: Seq<char>, width: nat) -> Seq<char> {
    let len = encode_utf8(text).len();
    if len < width {
        text + Seq::new((width - len) as nat, |i: int| ' ')
    } else {
        text
    }
}

/// The text of one entry: a mark for directories and the name, shortened to less than the column.
pub open spec fn cell(entry: Entry, col_w: nat) -> Seq<char> {
    let mark = if entry.is_dir {
        '\u{25b8}'
    } else {
        ' '
    };
    padded(truncated(seq![mark, ' '] + entry.name@, (col_w - 1) as nat), col_w)
}

/// The cells of the entries from one position up to another, side by side.
pub open spec fn cells(items: Seq<Entry>, from: int, to: int, col_w: nat) -> Seq<char>
    decreases to - from,
{
    if to <= from {
        seq![]
    } else {
        cells(items, from, to - 1, col_w) + cell(items[to - 1], col_w)
    }
}

/// One line of a listing: the cells of up to three entries, without white space at the end.
pub open spec fn line(items: Seq<Entry>, row: int, col_w: nat) -> Seq<char> {
    let end = if 3 * row + 3 <= items.len() {
        3 * row + 3
    } else {
        items.len() as int
    };
    trimmed_end(cells(items, 3 * row, end, col_w))
}

/// The first lines of a listing, each with a line end behind it.
pub open spec fn lines(items: Seq<Entry>, rows: int, col_w: nat) -> Seq<char>
    decreases rows,
{
    if rows <= 0 {
        seq![]
    } else {
        lines(items, rows - 1, col_w) + line(items, rows - 1, col_w) + seq!['\n']
    }
}

/// The number of lines that a listing of all entries takes.
pub open spec fn row_count(n: nat) -> nat {
    (n + 2) / 3
}

/// The lines of a listing have a place for every entry, and there is no line without one.
pub proof fn law_lines_hold_every_entry(n: nat)
    ensures
        n <= 3 * row_count(n),
        n > 0 ==> 3 * (row_count(n) - 1) < n,
{
}

/// The text of a listing in an area of the given size.
pub open spec fn listing_text(items: Seq<Entry>, width: nat, height: nat) -> Seq<char> {
    let rows = row_count(items.len());
    let col_w = column_width(width);
    if items.len() == 0 {
        "[empty]"@
    } else if height < rows {
        lines(items, height as int, col_w) + "\u{2026} (truncated)\n"@
    } else {
        lines(items, rows as int, col_w)
    }
}

/// A text has no more characters than bytes.
proof fn lemma_chars_within_bytes(text: Seq<char>)
    ensures
        text.len() <= encode_utf8(text).len(),
    decreases text.len(),
{
    if text.len() > 0 {
        lemma_chars_within_bytes(text.drop_first());
    }
}

/// A cell is no wider than its column.
pub proof fn law_cell_fits_its_column(entry: Entry, col_w: nat)
    requires
        col_w > 0,
    ensures
        cell(entry, col_w).len() <= col_w,
{
    let mark = if entry.is_dir {
        '\u{25b8}'
    } else {
        ' '
    };
    let full = seq![mark, ' '] + entry.name@;
    if col_w > 1 {
        law_truncated_fits(full, (col_w - 1) as nat);
    }
    lemma_chars_within_bytes(truncated(full, (col_w - 1) as nat));
}

proof fn lemma_cells_fit(items: Seq<Entry>, from: int, to: int, col_w: nat)
    requires
        col_w > 0,
        from <= to,
    ensures
        cells(items, from, to, col_w).len() <= (to - from) * col_w,
    decreases to - from,
{
    if from < to {
        lemma_cells_fit(items, from, to - 1, col_w);
        law_cell_fits_its_column(items[to - 1], col_w);
        assert((to - 1 - from) * col_w + col_w == (to - from) * col_w) by (nonlinear_arith);
    }
}

proof fn lemma_trimming_shortens(text: Seq<char>)
    ensures
        trimmed_end(text).len() <= text.len(),
    decreases text.len(),
{
    if text.len() > 0 && is_white_space(text.last()) {
        lemma_trimming_shortens(text.drop_last());
    }
}

/// A line of a listing is no wider than the area, where the area has room for three columns of the
/// least width.
pub proof fn law_line_fits_the_area(items: Seq<Entry>, row: int, width: nat)
    requires
        0 <= 3 * row < items.len(),
        width >= 3 * MIN_COLUMN_WIDTH,
    ensures
        line(items, row, column_width(width)).len() <= width,
{
    let col_w = column_width(width);
    let end = if 3 * row + 3 <= items.len() {
        3 * row + 3
    } else {
        items.len() as int
    };
    lemma_cells_fit(items, 3 * row, end, col_w);
    lemma_trimming_shortens(cells(items, 3 * row, end, col_w));
    assert((end - 3 * row) * col_w <= 3 * col_w) by (nonlinear_arith)
        requires
            end - 3 * row <= 3,
    ;
}

fn pad(text: &mut String, width: usize)
    ensures
        final(text)@ == padded(old(text)@, width as nat),
{
    let len: usize = text.as_str().as_bytes().len();
    let ghost before = text@;
    let mut n: usize = len;
    while n < width
        invariant
            len == encode_utf8(before).len(),
            len <= n,
            n <= width || n == len,
            text@ == before + Seq::new((n - len) as nat, |i: int| ' '),
        decreases width - n,
    {
        text.push(' ');
        n += 1;
    }
}

fn render_cell(entry: &Entry, col_w: usize) -> (text: String)
    requires
        col_w > 0,
    ensures
        text@ == cell(*entry, col_w as nat),
{
    let mut full = String::new();
    full.push(if entry.is_dir { '\u{25b8}' } else { ' ' });
    full.push(' ');
    full.append(entry.name.as_str());
    assert(full@ == seq![if entry.is_dir { '\u{25b8}' } else { ' ' }, ' '] + entry.name@);
    let mut short = truncate(full.as_str(), col_w - 1);
    pad(&mut short, col_w);
    short
}

/// Writes a listing in three columns, as many lines of it as the area has.
pub fn render_3col_listing(items: &[Entry], width: usize, height: usize) -> (text: String)
    ensures
        text@ == listing_text(items@, width as nat, height as nat),
{
    if items.is_empty() {
        return "[empty]".to_owned();
    }
    let col_w: usize = if width / COLUMNS < MIN_COLUMN_WIDTH {
        MIN_COLUMN_WIDTH
    } else {
        width / COLUMNS
    };
    let total: usize = items.len();
    let rows: usize = if total % COLUMNS == 0 {
        total / COLUMNS
    } else {
        total / COLUMNS + 1
    };
    let max_rows: usize = if height < rows {
        height
    } else {
        rows
    };
    let mut out = String::new();
    let mut r: usize = 0;
    while r < max_rows
        invariant
            r <= max_rows <= rows,
            rows == row_count(items@.len()),
            total == items@.len(),
            col_w == column_width(width as nat),
            out@ == lines(items@, r as int, col_w as nat),
        decreases max_rows - r,
    {
        let from: usize = r * COLUMNS;
        let to: usize = if total - from >= COLUMNS {
            from + COLUMNS
        } else {
            total
        };
        let mut row = String::new();
        let mut idx: usize = from;
        while idx < to
            invariant
                from <= idx <= to <= total,
                total == items@.len(),
                col_w > 0,
                row@ == cells(items@, from as int, idx as int, col_w as nat),
            decreases to - idx,
        {
            let text = render_cell(&items[idx], col_w);
            row.append(text.as_str());
            idx += 1;
        }
        let trimmed = trim_end(row.as_str());
        out.append(trimmed.as_str());
        out.push('\n');
        r += 1;
        assert(out@ == lines(items@, r as int, col_w as nat));
    }
    if max_rows < rows {
        out.append("\u{2026} (truncated)\n");
    }
    out
}

/// In a listing that is in order no file stands before a directory, and of two names of the same
/// kind the later one is not the smaller: not by the first byte in which their lower-case forms
/// differ, nor by being the beginning of the other.
pub proof fn law_names_are_in_order(items: Seq<Entry>, i: int, j: int, k: int)
    requires
        is_sorted(items),
        0 <= i < j < items.len(),
        k >= 0,
    ensures
        items[j].is_dir ==> items[i].is_dir,
        items[i].is_dir == items[j].is_dir ==> {
            let x = encode_utf8(lowercase(items[i].name@));
            let y = encode_utf8(lowercase(items[j].name@));
            &&& k < x.len() && k < y.len() && x.take(k) == y.take(k) ==> x[k] <= y[k]
            &&& k == y.len() && k < x.len() ==> x.take(k) != y
        },
{
    if items[i].is_dir == items[j].is_dir {
        let x = encode_utf8(lowercase(items[i].name@));
        let y = encode_utf8(lowercase(items[j].name@));
        assert(!precedes(y, x));
        if k < x.len() && k < y.len() && x.take(k) == y.take(k) && y[k] < x[k] {
            assert forall|m: int| 0 <= m < k implies y[m] == x[m] by {
                assert(x.take(k)[m] == y.take(k)[m]);
            }
            law_first_difference_decides(y, x, k);
        }
        if k == y.len() && k < x.len() && x.take(k) == y {
            assert forall|m: int| 0 <= m < y.len() implies y[m] == x[m] by {
                assert(x.take(k)[m] == y[m]);
            }
            law_beginning_comes_first(y, x);
        }
    }
}

proof fn lemma_filter_same(
    items: Seq<Entry>,
    p: spec_fn(Entry) -> bool,
    q: spec_fn(Entry) -> bool,
)
    requires
        forall|entry: Entry| #[trigger] p(entry) == q(entry),
    ensures
        items.filter(p) == items.filter(q),
    decreases items.len(),
{
    reveal(Seq::filter);
    if items.len() > 0 {
        lemma_filter_same(items.drop_last(), p, q);
    }
}

/// Entries of the same kind whose names differ in case alone are all kept, in the order in which
/// they stood.
pub proof fn law_names_of_different_case_keep_their_order(
    before: Seq<Entry>,
    after: Seq<Entry>,
    is_dir: bool,
    lower: Seq<char>,
)
    requires
        is_stable_sort(before, after),
    ensures
        after.filter(|entry: Entry| entry.is_dir == is_dir && lowercase(entry.name@) == lower)
            == before.filter(
            |entry: Entry| entry.is_dir == is_dir && lowercase(entry.name@) == lower,
        ),
{
    let key = (is_dir, encode_utf8(lower));
    let p = |entry: Entry| entry.is_dir == is_dir && lowercase(entry.name@) == lower;
    let q = |entry: Entry| sort_key(entry) == key;
    assert forall|entry: Entry| #[trigger] p(entry) == q(entry) by {
        vstd::utf8::encode_utf8_decode_utf8(lower);
        vstd::utf8::encode_utf8_decode_utf8(lowercase(entry.name@));
    }
    lemma_filter_same(before, p, q);
    lemma_filter_same(after, p, q);
    assert(with_key(after, key) == with_key(before, key));
}

/// A listing takes up what a scan finds one after the other: a name whose metadata could be read is
/// added, unless it begins with a dot and hidden names are not shown, and nothing else is.
pub proof fn law_listing_takes_up_what_is_found(
    scan: Seq<ScanItem>,
    name: String,
    is_dir: bool,
    show_hidden: bool,
)
    ensures
        shown_entries(Seq::<ScanItem>::empty(), show_hidden) == Seq::<Entry>::empty(),
        shown_entries(scan.push(ScanItem::Unreadable), show_hidden) == shown_entries(
            scan,
            show_hidden,
        ),
        shown_entries(scan.push(ScanItem::Found { name, is_dir: None }), show_hidden)
            == shown_entries(scan, show_hidden),
        show_hidden || name@.len() == 0 || name@[0] != '.' ==> shown_entries(
            scan.push(ScanItem::Found { name, is_dir: Some(is_dir) }),
            show_hidden,
        ) == shown_entries(scan, show_hidden).push(Entry { name, is_dir }),
        !show_hidden && name@.len() > 0 && name@[0] == '.' ==> shown_entries(
            scan.push(ScanItem::Found { name, is_dir: Some(is_dir) }),
            show_hidden,
        ) == shown_entries(scan, show_hidden),
{
    reveal(Seq::filter);
    lemma_shown_entries_push(scan, ScanItem::Unreadable, show_hidden);
    lemma_shown_entries_push(scan, ScanItem::Found { name, is_dir: None }, show_hidden);
    lemma_shown_entries_push(scan, ScanItem::Found { name, is_dir: Some(is_dir) }, show_hidden);
    assert(shown_entries(Seq::<ScanItem>::empty(), show_hidden) =~= Seq::<Entry>::empty());
}

/// Three columns fill the width as far as they can, and are never narrower than twelve.
pub proof fn law_three_columns_fill_the_width(width: nat)
    ensures
        width < 36 ==> column_width(width) == 12,
        width >= 36 ==> 3 * column_width(width) <= width < 3 * (column_width(width) + 1),
{
}

/// A cell shows the mark of its kind, a space and the name, cut by an ellipsis where they do not
/// leave a column free, and then nothing but spaces, which fill it up to the width in bytes.
pub proof fn law_cell_shows_the_name(entry: Entry, col_w: nat)
    requires
        col_w >= 2,
    ensures
        ({
            let mark = if entry.is_dir {
                '\u{25b8}'
            } else {
                ' '
            };
            let full = seq![mark, ' '] + entry.name@;
            let shown = if full.len() < col_w {
                full
            } else {
                full.take(col_w - 2).push('\u{2026}')
            };
            let text = cell(entry, col_w);
            let bytes = encode_utf8(shown).len();
            &&& text.len() >= shown.len()
            &&& text.take(shown.len() as int) == shown
            &&& forall|i: int| shown.len() <= i < text.len() ==> text[i] == ' '
            &&& text.len() - shown.len() == if bytes < col_w {
                col_w - bytes
            } else {
                0
            }
        }),
{
    let mark = if entry.is_dir {
        '\u{25b8}'
    } else {
        ' '
    };
    let full = seq![mark, ' '] + entry.name@;
    let shown = if full.len() < col_w {
        full
    } else {
        full.take(col_w - 2).push('\u{2026}')
    };
    assert(truncated(full, (col_w - 1) as nat) =~= shown);
    assert(cell(entry, col_w).take(shown.len() as int) =~= shown);
}

/// A line holds the next three entries, or what is left of them, in their order.
pub proof fn law_line_holds_the_next_entries(items: Seq<Entry>, row: int, col_w: nat)
    requires
        row >= 0,
        3 * row < items.len(),
    ensures
        3 * row + 1 == items.len() ==> line(items, row, col_w) == trimmed_end(
            cell(items[3 * row], col_w),
        ),
        3 * row + 2 == items.len() ==> line(items, row, col_w) == trimmed_end(
            cell(items[3 * row], col_w) + cell(items[3 * row + 1], col_w),
        ),
        3 * row + 3 <= items.len() ==> line(items, row, col_w) == trimmed_end(
            cell(items[3 * row], col_w) + cell(items[3 * row + 1], col_w) + cell(
                items[3 * row + 2],
                col_w,
            ),
        ),
{
    let from = 3 * row;
    assert(cells(items, from, from, col_w) =~= Seq::<char>::empty());
    assert(cells(items, from, from + 1, col_w) =~= cell(items[from], col_w));
    assert(cells(items, from, from + 2, col_w) =~= cell(items[from], col_w) + cell(
        items[from + 1],
        col_w,
    ));
    assert(cells(items, from, from + 3, col_w) =~= cell(items[from], col_w) + cell(
        items[from + 1],
        col_w,
    ) + cell(items[from + 2], col_w));
}

/// The lines stand one below the other.
pub proof fn law_lines_stand_below_each_other(items: Seq<Entry>, rows: int, col_w: nat)
    requires
        rows >= 0,
    ensures
        lines(items, 0, col_w) == Seq::<char>::empty(),
        lines(items, rows + 1, col_w) == lines(items, rows, col_w) + line(items, rows, col_w)
            + seq!['\n'],
{
}

/// A listing shows all of its lines where the area has the height for them, and else as many as the
/// area is high and a note. Every line but the last has three entries.
pub proof fn law_listing_uses_the_height(items: Seq<Entry>, width: nat, height: nat, rows: nat)
    requires
        3 * rows >= items.len(),
        3 * rows < items.len() + 3,
    ensures
        items.len() == 0 ==> listing_text(items, width, height) == "[empty]"@,
        items.len() > 0 && rows <= height ==> listing_text(items, width, height) == lines(
            items,
            rows as int,
            column_width(width),
        ),
        items.len() > 0 && rows > height ==> listing_text(items, width, height) == lines(
            items,
            height as int,
            column_width(width),
        ) + "\u{2026} (truncated)\n"@,
{
}

} // verus!
