//! Pure diff engines over a version's derived artifacts.
//!
//! Action items are compared as unordered collections under a content-only
//! equality key; chunks are compared position by position, with an
//! embedding-distance score attached where both sides carry an embedding.

use vstd::prelude::*;
use crate::document::{ActionItem, ActionItemView, Chunk, ChunkView, Date};

verus! {

/// Classification of one diff entry.
#[derive(Clone, Copy, PartialEq, Eq, Structural, Debug)]
pub enum DiffStatus {
    Added,
    Removed,
    Unchanged,
    Modified,
}

/// One reported difference. `item` is the "to" side's item, or the only
/// item for `Added` and `Removed`; `modified_from` carries the "from" side's
/// item only for `Modified`; `semantic_distance` carries the 32-bit encoding
/// of the embedding distance when both sides of a scored pair have one.
pub struct DiffEntry<T> {
    pub status: DiffStatus,
    pub item: T,
    pub modified_from: Option<T>,
    pub semantic_distance: Option<u32>,
}

/// Mathematical value of a `DiffEntry`.
pub ghost struct DiffEntryView<V> {
    pub status: DiffStatus,
    pub item: V,
    pub modified_from: Option<V>,
    pub semantic_distance: Option<u32>,
}

impl<T: DeepView> DeepView for DiffEntry<T> {
    type V = DiffEntryView<T::V>;

    open spec fn deep_view(&self) -> DiffEntryView<T::V> {
        DiffEntryView {
            status: self.status,
            item: self.item.deep_view(),
            modified_from: self.modified_from.deep_view(),
            semantic_distance: self.semantic_distance,
        }
    }
}

/// The two artifact diffs of one version pair.
pub struct StructuralDiff {
    pub action_items_diff: Vec<DiffEntry<ActionItem>>,
    pub chunks_diff: Vec<DiffEntry<Chunk>>,
}

/// The content-only equality key of an action item: identifier and
/// timestamp fields are regenerated for every version, so they are
/// excluded, otherwise no cross-version comparison could ever report an
/// item as unchanged.
pub ghost struct ContentKey {
    pub task_text: Seq<char>,
    pub original_text: Option<Seq<char>>,
    pub assignee_name: Option<Seq<char>>,
    pub due_date: Option<Date>,
    pub priority: Option<Seq<char>>,
}

pub open spec fn content_key(a: ActionItemView) -> ContentKey {
    ContentKey {
        task_text: a.task_text,
        original_text: a.original_text,
        assignee_name: a.assignee_name,
        due_date: a.due_date,
        priority: a.priority,
    }
}

/// Whether some item of `s` has content key `k`.
pub open spec fn has_key(s: Seq<ActionItemView>, k: ContentKey) -> bool {
    exists|i: int| 0 <= i < s.len() && content_key(s[i]) == k
}

/// The first item of `s` whose content key is `k`.
pub open spec fn first_with_key(s: Seq<ActionItemView>, k: ContentKey) -> ActionItemView
    decreases s.len(),
{
    if s.len() == 0 {
        arbitrary()
    } else if content_key(s[0]) == k {
        s[0]
    } else {
        first_with_key(s.drop_first(), k)
    }
}

/// The set of content keys occurring in `s`.
pub open spec fn key_set(s: Seq<ActionItemView>) -> Set<ContentKey> {
    Set::new(|k: ContentKey| has_key(s, k))
}

pub open spec fn unchanged_entry<V>(item: V) -> DiffEntryView<V> {
    DiffEntryView { status: DiffStatus::Unchanged, item: item, modified_from: None, semantic_distance: None }
}

pub open spec fn removed_entry<V>(item: V) -> DiffEntryView<V> {
    DiffEntryView { status: DiffStatus::Removed, item: item, modified_from: None, semantic_distance: None }
}

pub open spec fn added_entry<V>(item: V) -> DiffEntryView<V> {
    DiffEntryView { status: DiffStatus::Added, item: item, modified_from: None, semantic_distance: None }
}

/// The entry reported for a distinct key of the "from" side: unchanged if
/// the "to" side has an item of the same content, else removed.
pub open spec fn source_entry(a: ActionItemView, to: Seq<ActionItemView>) -> DiffEntryView<ActionItemView> {
    if has_key(to, content_key(a)) {
        unchanged_entry(first_with_key(to, content_key(a)))
    } else {
        removed_entry(a)
    }
}

/// Entries for the distinct content keys of `from`, in order of first
/// occurrence: one `Unchanged` or `Removed` entry per key.
pub open spec fn source_entries(from: Seq<ActionItemView>, to: Seq<ActionItemView>) -> Seq<
    DiffEntryView<ActionItemView>,
>
    decreases from.len(),
{
    if from.len() == 0 {
        Seq::empty()
    } else {
        let prefix = from.drop_last();
        let prev = source_entries(prefix, to);
        if has_key(prefix, content_key(from.last())) {
            prev
        } else {
            prev.push(source_entry(from.last(), to))
        }
    }
}

/// `Added` entries for the distinct content keys of `to` that `from` does
/// not have, in order of first occurrence.
pub open spec fn added_entries(from: Seq<ActionItemView>, to: Seq<ActionItemView>) -> Seq<
    DiffEntryView<ActionItemView>,
>
    decreases to.len(),
{
    if to.len() == 0 {
        Seq::empty()
    } else {
        let prefix = to.drop_last();
        let prev = added_entries(from, prefix);
        if has_key(prefix, content_key(to.last())) || has_key(from, content_key(to.last())) {
            prev
        } else {
            prev.push(added_entry(to.last()))
        }
    }
}

/// The full structural diff of two action-item collections: the
/// unchanged/removed classification of `from`'s keys, followed by the added
/// keys of `to`.
pub open spec fn action_diff(from: Seq<ActionItemView>, to: Seq<ActionItemView>) -> Seq<
    DiffEntryView<ActionItemView>,
> {
    source_entries(from, to) + added_entries(from, to)
}

/// Compares two optional strings by value.
pub fn eq_opt_string(a: &Option<String>, b: &Option<String>) -> (r: bool)
    ensures
        r == (a.deep_view() == b.deep_view()),
{
    match (a, b) {
        (Some(x), Some(y)) => *x == *y,
        (None, None) => true,
        _ => false,
    }
}

/// Compares two optional dates by value.
pub fn eq_opt_date(a: &Option<Date>, b: &Option<Date>) -> (r: bool)
    ensures
        r == (*a == *b),
{
    match (a, b) {
        (Some(x), Some(y)) => *x == *y,
        (None, None) => true,
        _ => false,
    }
}

/// Whether two action items agree on every content field.
pub fn same_content(a: &ActionItem, b: &ActionItem) -> (r: bool)
    ensures
        r == (content_key(a.deep_view()) == content_key(b.deep_view())),
{
    let task = a.task_text == b.task_text;
    let original = eq_opt_string(&a.original_text, &b.original_text);
    let assignee = eq_opt_string(&a.assignee_name, &b.assignee_name);
    let due = eq_opt_date(&a.due_date, &b.due_date);
    let priority = eq_opt_string(&a.priority, &b.priority);
    task && original && assignee && due && priority
}

/// Whether an item with the same content key as `a` occurs among the first
/// `upto` elements of `items`.
fn key_seen_before(items: &Vec<ActionItem>, upto: usize, a: &ActionItem) -> (r: bool)
    requires
        upto <= items.len(),
    ensures
        r == has_key(items.deep_view().subrange(0, upto as int), content_key(a.deep_view())),
{
    let ghost pre = items.deep_view().subrange(0, upto as int);
    let mut j: usize = 0;
    while j < upto
        invariant
            j <= upto <= items.len(),
            pre == items.deep_view().subrange(0, upto as int),
            forall|l: int| 0 <= l < j ==> content_key(pre[l]) != content_key(a.deep_view()),
        decreases upto - j,
    {
        if same_content(&items[j], a) {
            proof {
                assert(pre[j as int] == items.deep_view()[j as int]);
            }
            return true;
        }
        j = j + 1;
    }
    false
}

proof fn lemma_first_with_key_from_index(s: Seq<ActionItemView>, k: ContentKey, j: int)
    requires
        0 <= j < s.len(),
        content_key(s[j]) == k,
        forall|l: int| 0 <= l < j ==> content_key(s[l]) != k,
    ensures
        has_key(s, k),
        first_with_key(s, k) == s[j],
    decreases s.len(),
{
    if j == 0 {
    } else {
        lemma_first_with_key_from_index(s.drop_first(), k, j - 1);
    }
}

/// The index of the first item of `items` sharing `a`'s content key.
fn find_first_match(items: &Vec<ActionItem>, a: &ActionItem) -> (r: Option<usize>)
    ensures
        match r {
            Some(j) => {
                &&& j < items.len()
                &&& has_key(items.deep_view(), content_key(a.deep_view()))
                &&& items.deep_view()[j as int] == first_with_key(
                    items.deep_view(),
                    content_key(a.deep_view()),
                )
                &&& content_key(items.deep_view()[j as int]) == content_key(a.deep_view())
            },
            None => !has_key(items.deep_view(), content_key(a.deep_view())),
        },
{
    let ghost s = items.deep_view();
    let mut j: usize = 0;
    while j < items.len()
        invariant
            j <= items.len(),
            s == items.deep_view(),
            forall|l: int| 0 <= l < j ==> content_key(s[l]) != content_key(a.deep_view()),
        decreases items.len() - j,
    {
        if same_content(&items[j], a) {
            proof {
                lemma_first_with_key_from_index(s, content_key(a.deep_view()), j as int);
            }
            return Some(j);
        }
        j = j + 1;
    }
    None
}

/// Compares two unordered action-item collections by content: an item
/// present on both sides is `Unchanged`, present only on the "from" side is
/// `Removed`, present only on the "to" side is `Added`; `Modified` is never
/// reported for this artifact kind. One entry is reported per distinct
/// content key, in order of first occurrence, "from" side first.
pub fn compare_action_items(from_items: Vec<ActionItem>, to_items: Vec<ActionItem>) -> (r: Vec<
    DiffEntry<ActionItem>,
>)
    ensures
        r.deep_view() == action_diff(from_items.deep_view(), to_items.deep_view()),
{
    let ghost fv = from_items.deep_view();
    let ghost tv = to_items.deep_view();
    let mut result: Vec<DiffEntry<ActionItem>> = Vec::new();
    let mut i: usize = 0;
    while i < from_items.len()
        invariant
            i <= from_items.len(),
            fv == from_items.deep_view(),
            tv == to_items.deep_view(),
            result.deep_view() == source_entries(fv.subrange(0, i as int), tv),
        decreases from_items.len() - i,
    {
        let ghost prev = result.deep_view();
        let seen = key_seen_before(&from_items, i, &from_items[i]);
        if !seen {
            match find_first_match(&to_items, &from_items[i]) {
                Some(j) => {
                    let entry = DiffEntry {
                        status: DiffStatus::Unchanged,
                        item: to_items[j].clone(),
                        modified_from: None,
                        semantic_distance: None,
                    };
                    proof {
                        assert(entry.deep_view() == source_entry(fv[i as int], tv));
                    }
                    result.push(entry);
                },
                None => {
                    let entry = DiffEntry {
                        status: DiffStatus::Removed,
                        item: from_items[i].clone(),
                        modified_from: None,
                        semantic_distance: None,
                    };
                    proof {
                        assert(entry.deep_view() == source_entry(fv[i as int], tv));
                    }
                    result.push(entry);
                },
            }
            proof {
                assert(result.deep_view() =~= prev.push(source_entry(fv[i as int], tv)));
            }
        }
        proof {
            let next = fv.subrange(0, i + 1 as int);
            assert(next.drop_last() =~= fv.subrange(0, i as int));
            assert(next.last() == fv[i as int]);
            assert(result.deep_view() == source_entries(next, tv));
        }
        i = i + 1;
    }
    proof {
        assert(fv.subrange(0, fv.len() as int) =~= fv);
    }
    let mut t: usize = 0;
    while t < to_items.len()
        invariant
            t <= to_items.len(),
            fv == from_items.deep_view(),
            tv == to_items.deep_view(),
            result.deep_view() == source_entries(fv, tv) + added_entries(fv, tv.subrange(0, t as int)),
        decreases to_items.len() - t,
    {
        let ghost prev = result.deep_view();
        let seen = key_seen_before(&to_items, t, &to_items[t]);
        if !seen {
            match find_first_match(&from_items, &to_items[t]) {
                Some(_) => {},
                None => {
                    let entry = DiffEntry {
                        status: DiffStatus::Added,
                        item: to_items[t].clone(),
                        modified_from: None,
                        semantic_distance: None,
                    };
                    proof {
                        assert(entry.deep_view() == added_entry(tv[t as int]));
                    }
                    result.push(entry);
                    proof {
                        assert(result.deep_view() =~= prev.push(added_entry(tv[t as int])));
                    }
                },
            }
        }
        proof {
            let next = tv.subrange(0, t + 1 as int);
            assert(next.drop_last() =~= tv.subrange(0, t as int));
            assert(next.last() == tv[t as int]);
            assert(result.deep_view() == source_entries(fv, tv) + added_entries(fv, next));
        }
        t = t + 1;
    }
    proof {
        assert(tv.subrange(0, tv.len() as int) =~= tv);
    }
    result
}

/// The content key of a diff entry's reported item.
pub open spec fn entry_key(e: DiffEntryView<ActionItemView>) -> ContentKey {
    content_key(e.item)
}

/// The content keys of the entries carrying a given status.
pub open spec fn keys_with_status(es: Seq<DiffEntryView<ActionItemView>>, st: DiffStatus) -> Set<
    ContentKey,
> {
    Set::new(
        |k: ContentKey|
            exists|i: int| 0 <= i < es.len() && (#[trigger] es[i]).status == st && entry_key(es[i]) == k,
    )
}

proof fn lemma_has_key_push(s: Seq<ActionItemView>, a: ActionItemView, k: ContentKey)
    ensures
        has_key(s.push(a), k) <==> (has_key(s, k) || content_key(a) == k),
{
    if has_key(s, k) {
        let w = choose|i: int| 0 <= i < s.len() && content_key(s[i]) == k;
        assert(s.push(a)[w] == s[w]);
    }
    if content_key(a) == k {
        assert(s.push(a)[s.len() as int] == a);
    }
    if has_key(s.push(a), k) && !has_key(s, k) {
        let w = choose|i: int| 0 <= i < s.push(a).len() && content_key(s.push(a)[i]) == k;
        if w < s.len() {
            assert(s[w] == s.push(a)[w]);
        } else {
            assert(s.push(a)[w] == a);
        }
    }
}

proof fn lemma_first_with_key_push(s: Seq<ActionItemView>, a: ActionItemView, k: ContentKey)
    ensures
        has_key(s, k) ==> first_with_key(s.push(a), k) == first_with_key(s, k),
        !has_key(s, k) && content_key(a) == k ==> first_with_key(s.push(a), k) == a,
    decreases s.len(),
{
    if s.len() == 0 {
        assert(s.push(a)[0] == a);
        if has_key(s, k) {
            let w = choose|i: int| 0 <= i < s.len() && content_key(s[i]) == k;
        }
    } else {
        assert(s.push(a)[0] == s[0]);
        assert(s.push(a).drop_first() =~= s.drop_first().push(a));
        if content_key(s[0]) == k {
        } else {
            lemma_first_with_key_push(s.drop_first(), a, k);
            if has_key(s, k) {
                let w = choose|i: int| 0 <= i < s.len() && content_key(s[i]) == k;
                assert(w > 0);
                assert(s.drop_first()[w - 1] == s[w]);
                assert(has_key(s.drop_first(), k));
            } else {
                if has_key(s.drop_first(), k) {
                    let w = choose|i: int|
                        0 <= i < s.drop_first().len() && content_key(s.drop_first()[i]) == k;
                    assert(s[w + 1] == s.drop_first()[w]);
                    assert(false);
                }
            }
        }
    }
}

/// The first item carrying key `k` indeed carries `k` and occurs in `s`.
proof fn lemma_first_with_key_props(s: Seq<ActionItemView>, k: ContentKey)
    requires
        has_key(s, k),
    ensures
        content_key(first_with_key(s, k)) == k,
        exists|i: int| 0 <= i < s.len() && s[i] == first_with_key(s, k),
    decreases s.len(),
{
    if s.len() == 0 {
    } else if content_key(s[0]) == k {
    } else {
        assert(has_key(s.drop_first(), k)) by {
            let w = choose|i: int| 0 <= i < s.len() && content_key(s[i]) == k;
            assert(s.drop_first()[w - 1] == s[w]);
        }
        lemma_first_with_key_props(s.drop_first(), k);
        let w2 = choose|i: int|
            0 <= i < s.drop_first().len() && s.drop_first()[i] == first_with_key(s.drop_first(), k);
        assert(s[w2 + 1] == s.drop_first()[w2]);
    }
}

proof fn lemma_source_entries_props(from: Seq<ActionItemView>, to: Seq<ActionItemView>)
    ensures
        ({
            let s = source_entries(from, to);
            &&& forall|i: int|
                0 <= i < s.len() ==> has_key(from, entry_key(#[trigger] s[i]))
            &&& forall|i: int|
                0 <= i < s.len() ==> #[trigger] s[i] == source_entry(
                    first_with_key(from, entry_key(s[i])),
                    to,
                )
            &&& forall|k: ContentKey|
                #[trigger] has_key(from, k) <==> exists|i: int|
                    0 <= i < s.len() && entry_key(#[trigger] s[i]) == k
            &&& forall|i: int, j: int|
                0 <= i < j < s.len() ==> entry_key(s[i]) != entry_key(s[j])
        }),
    decreases from.len(),
{
    if from.len() == 0 {
        assert forall|k: ContentKey| #[trigger] has_key(from, k) implies exists|i: int|
            0 <= i < source_entries(from, to).len() && entry_key(
            #[trigger] source_entries(from, to)[i],
        ) == k by {
            let w = choose|i: int| 0 <= i < from.len() && content_key(from[i]) == k;
        }
    } else {
        let prefix = from.drop_last();
        let x = from.last();
        lemma_source_entries_props(prefix, to);
        assert(prefix.push(x) =~= from);
        let sp = source_entries(prefix, to);
        let s = source_entries(from, to);
        assert forall|k: ContentKey| true implies (#[trigger] has_key(from, k) <==> (has_key(
            prefix,
            k,
        ) || content_key(x) == k)) by {
            lemma_has_key_push(prefix, x, k);
        }
        assert forall|k: ContentKey| #[trigger] has_key(prefix, k) implies first_with_key(from, k)
            == first_with_key(prefix, k) by {
            lemma_first_with_key_push(prefix, x, k);
        }
        if has_key(prefix, content_key(x)) {
            assert(s == sp);
        } else {
            lemma_first_with_key_push(prefix, x, content_key(x));
            assert(first_with_key(from, content_key(x)) == x);
            assert(s == sp.push(source_entry(x, to)));
            assert(entry_key(source_entry(x, to)) == content_key(x)) by {
                if has_key(to, content_key(x)) {
                    lemma_first_with_key_props(to, content_key(x));
                }
            }
            assert forall|i: int| 0 <= i < s.len() implies has_key(from, entry_key(#[trigger] s[i]))
                && s[i] == source_entry(first_with_key(from, entry_key(s[i])), to) by {
                if i < sp.len() {
                    assert(s[i] == sp[i]);
                } else {
                    assert(s[i] == source_entry(x, to));
                }
            }
            assert forall|k: ContentKey| #[trigger] has_key(from, k) implies exists|i: int|
                0 <= i < s.len() && entry_key(#[trigger] s[i]) == k by {
                if has_key(prefix, k) {
                    let w = choose|i: int| 0 <= i < sp.len() && entry_key(#[trigger] sp[i]) == k;
                    assert(entry_key(s[w]) == k);
                } else {
                    assert(content_key(x) == k);
                    assert(entry_key(s[s.len() - 1]) == k);
                }
            }
            assert forall|i: int, j: int| 0 <= i < j < s.len() implies entry_key(s[i]) != entry_key(
                s[j],
            ) by {
                if j == s.len() - 1 {
                    assert(has_key(prefix, entry_key(s[i])));
                }
            }
        }
    }
}

proof fn lemma_added_entries_props(from: Seq<ActionItemView>, to: Seq<ActionItemView>)
    ensures
        ({
            let s = added_entries(from, to);
            &&& forall|i: int|
                0 <= i < s.len() ==> has_key(to, entry_key(#[trigger] s[i])) && !has_key(
                    from,
                    entry_key(s[i]),
                )
            &&& forall|i: int|
                0 <= i < s.len() ==> #[trigger] s[i] == added_entry(
                    first_with_key(to, entry_key(s[i])),
                )
            &&& forall|k: ContentKey|
                (#[trigger] has_key(to, k) && !has_key(from, k)) <==> exists|i: int|
                    0 <= i < s.len() && entry_key(#[trigger] s[i]) == k
            &&& forall|i: int, j: int|
                0 <= i < j < s.len() ==> entry_key(s[i]) != entry_key(s[j])
        }),
    decreases to.len(),
{
    if to.len() == 0 {
        assert forall|k: ContentKey| (#[trigger] has_key(to, k) && !has_key(from, k)) implies exists|
            i: int,
        | 0 <= i < added_entries(from, to).len() && entry_key(
            #[trigger] added_entries(from, to)[i],
        ) == k by {
            let w = choose|i: int| 0 <= i < to.len() && content_key(to[i]) == k;
        }
    } else {
        let prefix = to.drop_last();
        let x = to.last();
        lemma_added_entries_props(from, prefix);
        assert(prefix.push(x) =~= to);
        let sp = added_entries(from, prefix);
        let s = added_entries(from, to);
        assert forall|k: ContentKey| true implies (#[trigger] has_key(to, k) <==> (has_key(prefix, k)
            || content_key(x) == k)) by {
            lemma_has_key_push(prefix, x, k);
        }
        assert forall|k: ContentKey| #[trigger] has_key(prefix, k) implies first_with_key(to, k)
            == first_with_key(prefix, k) by {
            lemma_first_with_key_push(prefix, x, k);
        }
        if has_key(prefix, content_key(x)) || has_key(from, content_key(x)) {
            assert(s == sp);
            assert forall|k: ContentKey| (#[trigger] has_key(to, k) && !has_key(from, k)) implies exists|
                i: int,
            | 0 <= i < s.len() && entry_key(#[trigger] s[i]) == k by {
                if !has_key(prefix, k) {
                    assert(content_key(x) == k);
                }
            }
        } else {
            lemma_first_with_key_push(prefix, x, content_key(x));
            assert(first_with_key(to, content_key(x)) == x);
            assert(s == sp.push(added_entry(x)));
            assert(entry_key(added_entry(x)) == content_key(x));
            assert forall|i: int| 0 <= i < s.len() implies has_key(to, entry_key(#[trigger] s[i]))
                && !has_key(from, entry_key(s[i])) && s[i] == added_entry(
                first_with_key(to, entry_key(s[i])),
            ) by {
                if i < sp.len() {
                    assert(s[i] == sp[i]);
                } else {
                    assert(s[i] == added_entry(x));
                }
            }
            assert forall|k: ContentKey| (#[trigger] has_key(to, k) && !has_key(from, k)) implies exists|
                i: int,
            | 0 <= i < s.len() && entry_key(#[trigger] s[i]) == k by {
                if has_key(prefix, k) {
                    let w = choose|i: int| 0 <= i < sp.len() && entry_key(#[trigger] sp[i]) == k;
                    assert(entry_key(s[w]) == k);
                } else {
                    assert(content_key(x) == k);
                    assert(entry_key(s[s.len() - 1]) == k);
                }
            }
            assert forall|i: int, j: int| 0 <= i < j < s.len() implies entry_key(s[i]) != entry_key(
                s[j],
            ) by {
                if j == s.len() - 1 {
                    assert(has_key(prefix, entry_key(s[i])) || has_key(from, entry_key(s[i])));
                }
            }
        }
    }
}

/// Full characterization of the structural action-item diff: every entry's
/// status is decided by which sides carry the entry's content key, the
/// reported item is the first item carrying that key (from the "to" side
/// whenever that side has one), every key of either side is reported
/// exactly once, and `Modified` is never reported.
pub proof fn lemma_action_diff_characterization(from: Seq<ActionItemView>, to: Seq<ActionItemView>)
    ensures
        ({
            let d = action_diff(from, to);
            &&& forall|i: int|
                0 <= i < d.len() ==> (#[trigger] d[i]).modified_from is None
                    && d[i].semantic_distance is None
            &&& forall|i: int| 0 <= i < d.len() ==> (#[trigger] d[i]).status != DiffStatus::Modified
            &&& forall|i: int|
                0 <= i < d.len() ==> ((#[trigger] d[i]).status == DiffStatus::Unchanged <==> has_key(
                    from,
                    entry_key(d[i]),
                ) && has_key(to, entry_key(d[i])))
            &&& forall|i: int|
                0 <= i < d.len() ==> ((#[trigger] d[i]).status == DiffStatus::Removed <==> has_key(
                    from,
                    entry_key(d[i]),
                ) && !has_key(to, entry_key(d[i])))
            &&& forall|i: int|
                0 <= i < d.len() ==> ((#[trigger] d[i]).status == DiffStatus::Added <==> !has_key(
                    from,
                    entry_key(d[i]),
                ) && has_key(to, entry_key(d[i])))
            &&& forall|i: int|
                0 <= i < d.len() && (#[trigger] d[i]).status == DiffStatus::Removed ==> d[i].item
                    == first_with_key(from, entry_key(d[i]))
            &&& forall|i: int|
                0 <= i < d.len() && (#[trigger] d[i]).status != DiffStatus::Removed ==> d[i].item
                    == first_with_key(to, entry_key(d[i]))
            &&& forall|k: ContentKey|
                #[trigger] has_key(from, k) ==> exists|i: int|
                    0 <= i < d.len() && entry_key(#[trigger] d[i]) == k
            &&& forall|k: ContentKey|
                #[trigger] has_key(to, k) ==> exists|i: int|
                    0 <= i < d.len() && entry_key(#[trigger] d[i]) == k
            &&& forall|i: int, j: int|
                0 <= i < j < d.len() ==> entry_key(d[i]) != entry_key(d[j])
        }),
{
    lemma_source_entries_props(from, to);
    lemma_added_entries_props(from, to);
    let s1 = source_entries(from, to);
    let s2 = added_entries(from, to);
    let d = action_diff(from, to);
    assert(d.len() == s1.len() + s2.len());
    assert forall|i: int| 0 <= i < d.len() implies (i < s1.len() ==> d[i] == s1[i]) && (i >= s1.len()
        ==> d[i] == s2[i - s1.len()]) by {}
    assert forall|i: int| 0 <= i < s1.len() implies entry_key(s1[i]) == content_key(
        first_with_key(from, entry_key(s1[i])),
    ) by {
        lemma_first_with_key_props(from, entry_key(s1[i]));
        if has_key(to, entry_key(s1[i])) {
            lemma_first_with_key_props(to, entry_key(s1[i]));
        }
    }
    assert forall|k: ContentKey| #[trigger] has_key(from, k) implies exists|i: int|
        0 <= i < d.len() && entry_key(#[trigger] d[i]) == k by {
        let w = choose|i: int| 0 <= i < s1.len() && entry_key(#[trigger] s1[i]) == k;
        assert(entry_key(d[w]) == k);
    }
    assert forall|k: ContentKey| #[trigger] has_key(to, k) implies exists|i: int|
        0 <= i < d.len() && entry_key(#[trigger] d[i]) == k by {
        if has_key(from, k) {
            let w = choose|i: int| 0 <= i < s1.len() && entry_key(#[trigger] s1[i]) == k;
            assert(entry_key(d[w]) == k);
        } else {
            let w = choose|i: int| 0 <= i < s2.len() && entry_key(#[trigger] s2[i]) == k;
            assert(entry_key(d[s1.len() + w]) == k);
        }
    }
    assert forall|i: int| 0 <= i < d.len() implies (#[trigger] d[i]).modified_from is None
        && d[i].semantic_distance is None && d[i].status != DiffStatus::Modified by {
        if i < s1.len() {
            lemma_first_with_key_props(from, entry_key(s1[i]));
        }
    }
}

/// The keys of the unchanged, removed and added entries are exactly the
/// intersection and the two differences of the two sides' content-key
/// sets: together the unchanged and removed keys reconstruct the "from"
/// side, the unchanged and added keys reconstruct the "to" side, and the
/// added and removed keys are disjoint.
pub proof fn lemma_action_diff_partition(from: Seq<ActionItemView>, to: Seq<ActionItemView>)
    ensures
        keys_with_status(action_diff(from, to), DiffStatus::Unchanged) == key_set(from).intersect(
            key_set(to),
        ),
        keys_with_status(action_diff(from, to), DiffStatus::Removed) == key_set(from).difference(
            key_set(to),
        ),
        keys_with_status(action_diff(from, to), DiffStatus::Added) == key_set(to).difference(
            key_set(from),
        ),
        keys_with_status(action_diff(from, to), DiffStatus::Unchanged).union(
            keys_with_status(action_diff(from, to), DiffStatus::Removed),
        ) == key_set(from),
        keys_with_status(action_diff(from, to), DiffStatus::Unchanged).union(
            keys_with_status(action_diff(from, to), DiffStatus::Added),
        ) == key_set(to),
        keys_with_status(action_diff(from, to), DiffStatus::Added).disjoint(
            keys_with_status(action_diff(from, to), DiffStatus::Removed),
        ),
{
    lemma_action_diff_characterization(from, to);
    let d = action_diff(from, to);
    assert forall|k: ContentKey, st: DiffStatus|
        #[trigger] keys_with_status(d, st).contains(k) implies exists|i: int|
        0 <= i < d.len() && (#[trigger] d[i]).status == st && entry_key(d[i]) == k by {}
    assert(keys_with_status(d, DiffStatus::Unchanged) =~= key_set(from).intersect(key_set(to)))
        by {
        assert forall|k: ContentKey|
            key_set(from).intersect(key_set(to)).contains(k) implies keys_with_status(
            d,
            DiffStatus::Unchanged,
        ).contains(k) by {
            let w = choose|i: int| 0 <= i < d.len() && entry_key(#[trigger] d[i]) == k;
            assert(d[w].status == DiffStatus::Unchanged);
        }
    }
    assert(keys_with_status(d, DiffStatus::Removed) =~= key_set(from).difference(key_set(to))) by {
        assert forall|k: ContentKey|
            key_set(from).difference(key_set(to)).contains(k) implies keys_with_status(
            d,
            DiffStatus::Removed,
        ).contains(k) by {
            let w = choose|i: int| 0 <= i < d.len() && entry_key(#[trigger] d[i]) == k;
            assert(d[w].status == DiffStatus::Removed);
        }
    }
    assert(keys_with_status(d, DiffStatus::Added) =~= key_set(to).difference(key_set(from))) by {
        assert forall|k: ContentKey|
            key_set(to).difference(key_set(from)).contains(k) implies keys_with_status(
            d,
            DiffStatus::Added,
        ).contains(k) by {
            let w = choose|i: int| 0 <= i < d.len() && entry_key(#[trigger] d[i]) == k;
            assert(d[w].status == DiffStatus::Added);
        }
    }
    assert(key_set(from).intersect(key_set(to)).union(key_set(from).difference(key_set(to)))
        =~= key_set(from));
    assert(key_set(from).intersect(key_set(to)).union(key_set(to).difference(key_set(from)))
        =~= key_set(to));
    assert(keys_with_status(d, DiffStatus::Unchanged).union(
        keys_with_status(d, DiffStatus::Added),
    ) =~= key_set(to).intersect(key_set(from)).union(key_set(to).difference(key_set(from))));
    assert(key_set(to).intersect(key_set(from)).union(key_set(to).difference(key_set(from)))
        =~= key_set(to));
}

/// Comparing an action-item collection with itself reports every entry as
/// unchanged.
pub proof fn lemma_action_diff_identity(a: Seq<ActionItemView>)
    ensures
        forall|i: int|
            0 <= i < action_diff(a, a).len() ==> (#[trigger] action_diff(a, a)[i]).status
                == DiffStatus::Unchanged,
{
    lemma_action_diff_characterization(a, a);
}

/// The two directions of a structural diff are mirror images: the added
/// keys of one direction are the removed keys of the other, and the
/// unchanged keys agree.
pub proof fn lemma_action_diff_mirror(a: Seq<ActionItemView>, b: Seq<ActionItemView>)
    ensures
        keys_with_status(action_diff(a, b), DiffStatus::Added) == keys_with_status(
            action_diff(b, a),
            DiffStatus::Removed,
        ),
        keys_with_status(action_diff(a, b), DiffStatus::Removed) == keys_with_status(
            action_diff(b, a),
            DiffStatus::Added,
        ),
        keys_with_status(action_diff(a, b), DiffStatus::Unchanged) == keys_with_status(
            action_diff(b, a),
            DiffStatus::Unchanged,
        ),
{
    lemma_action_diff_partition(a, b);
    lemma_action_diff_partition(b, a);
    assert(key_set(a).intersect(key_set(b)) =~= key_set(b).intersect(key_set(a)));
}

/// Comparing a chunk collection with itself yields only unchanged entries,
/// each scored with distance zero.
pub proof fn lemma_chunk_diff_identity(
    c: Seq<ChunkView>,
    scores: Seq<PositionScore>,
    out: Seq<DiffEntryView<ChunkView>>,
)
    requires
        is_chunk_diff(c, c, scores, out),
    ensures
        forall|i: int|
            0 <= i < out.len() ==> (#[trigger] out[i]).status == DiffStatus::Unchanged
                && out[i].semantic_distance == Some(0u32),
{
    assert forall|i: int| 0 <= i < out.len() implies (#[trigger] out[i]).status
        == DiffStatus::Unchanged && out[i].semantic_distance == Some(0u32) by {
        let p = out[i].item.position;
        assert(out[i] == chunk_entry(c, c, scores, p));
    }
}

/// One embedding-distance score, keyed by chunk position. The score is the
/// 32-bit encoding handed back by the scoring collaborator.
#[derive(Clone, Copy, PartialEq, Eq, Structural, Debug)]
pub struct PositionScore {
    pub position: i32,
    pub score: u32,
}

/// Whether some chunk of `s` sits at position `p`.
pub open spec fn has_position(s: Seq<ChunkView>, p: i32) -> bool {
    exists|i: int| 0 <= i < s.len() && s[i].position == p
}

/// The first chunk of `s` at position `p`.
pub open spec fn chunk_at(s: Seq<ChunkView>, p: i32) -> ChunkView
    decreases s.len(),
{
    if s.len() == 0 {
        arbitrary()
    } else if s[0].position == p {
        s[0]
    } else {
        chunk_at(s.drop_first(), p)
    }
}

/// Positions are an ordering key, unique within one version's chunks.
pub open spec fn distinct_positions(s: Seq<ChunkView>) -> bool {
    forall|i: int, j: int| 0 <= i < j < s.len() ==> s[i].position != s[j].position
}

/// The score recorded for position `p`, if any.
pub open spec fn score_at(scores: Seq<PositionScore>, p: i32) -> Option<u32>
    decreases scores.len(),
{
    if scores.len() == 0 {
        None
    } else if scores[0].position == p {
        Some(scores[0].score)
    } else {
        score_at(scores.drop_first(), p)
    }
}

/// The entry reported for position `p`: unchanged with distance zero when
/// both sides carry the same text, modified otherwise (scored only when
/// both sides carry an embedding), removed or added when only one side has
/// a chunk at `p`.
pub open spec fn chunk_entry(
    from: Seq<ChunkView>,
    to: Seq<ChunkView>,
    scores: Seq<PositionScore>,
    p: i32,
) -> DiffEntryView<ChunkView> {
    if has_position(from, p) && has_position(to, p) {
        let cf = chunk_at(from, p);
        let ct = chunk_at(to, p);
        if cf.text_content == ct.text_content {
            DiffEntryView {
                status: DiffStatus::Unchanged,
                item: ct,
                modified_from: None,
                semantic_distance: Some(0u32),
            }
        } else {
            DiffEntryView {
                status: DiffStatus::Modified,
                item: ct,
                modified_from: Some(cf),
                semantic_distance: if cf.embedding is Some && ct.embedding is Some {
                    score_at(scores, p)
                } else {
                    None
                },
            }
        }
    } else if has_position(from, p) {
        removed_entry(chunk_at(from, p))
    } else {
        added_entry(chunk_at(to, p))
    }
}

/// What a chunk diff is: one entry per position of either side, in strictly
/// ascending position order, each entry classified by `chunk_entry`.
pub open spec fn is_chunk_diff(
    from: Seq<ChunkView>,
    to: Seq<ChunkView>,
    scores: Seq<PositionScore>,
    out: Seq<DiffEntryView<ChunkView>>,
) -> bool {
    &&& forall|i: int, j: int| 0 <= i < j < out.len() ==> out[i].item.position < out[j].item.position
    &&& forall|i: int|
        0 <= i < out.len() ==> has_position(from, (#[trigger] out[i]).item.position) || has_position(
            to,
            out[i].item.position,
        )
    &&& forall|p: i32|
        #![trigger has_position(from, p)]
        #![trigger has_position(to, p)]
        has_position(from, p) || has_position(to, p) ==> exists|i: int|
            0 <= i < out.len() && (#[trigger] out[i]).item.position == p
    &&& forall|i: int|
        0 <= i < out.len() ==> #[trigger] out[i] == chunk_entry(from, to, scores, out[i].item.position)
}

proof fn lemma_chunk_at_from_index(s: Seq<ChunkView>, p: i32, j: int)
    requires
        0 <= j < s.len(),
        s[j].position == p,
        forall|l: int| 0 <= l < j ==> s[l].position != p,
    ensures
        has_position(s, p),
        chunk_at(s, p) == s[j],
    decreases s.len(),
{
    if j == 0 {
    } else {
        lemma_chunk_at_from_index(s.drop_first(), p, j - 1);
    }
}

/// Where `has_position(s, p)` holds, the chunk reported for `p` indeed sits
/// at `p` and occurs in `s`.
proof fn lemma_chunk_at_props(s: Seq<ChunkView>, p: i32)
    requires
        has_position(s, p),
    ensures
        chunk_at(s, p).position == p,
        exists|i: int| 0 <= i < s.len() && s[i] == chunk_at(s, p),
    decreases s.len(),
{
    if s.len() == 0 {
    } else if s[0].position == p {
    } else {
        assert(has_position(s.drop_first(), p)) by {
            let w = choose|i: int| 0 <= i < s.len() && s[i].position == p;
            assert(s.drop_first()[w - 1] == s[w]);
        }
        lemma_chunk_at_props(s.drop_first(), p);
        let w2 = choose|i: int| 0 <= i < s.drop_first().len() && s.drop_first()[i] == chunk_at(
            s.drop_first(),
            p,
        );
        assert(s[w2 + 1] == s.drop_first()[w2]);
    }
}

/// Strictly ascending order over a position list.
pub open spec fn sorted_strict(s: Seq<i32>) -> bool {
    forall|i: int, j: int| 0 <= i < j < s.len() ==> s[i] < s[j]
}

/// Inserts `p` into a strictly sorted position list, keeping it strictly
/// sorted and deduplicated.
fn insert_position(ps: &mut Vec<i32>, p: i32)
    requires
        sorted_strict(old(ps)@),
    ensures
        sorted_strict(final(ps)@),
        forall|x: i32| final(ps)@.contains(x) <==> (old(ps)@.contains(x) || x == p),
{
    let ghost orig = ps@;
    let mut idx: usize = 0;
    while idx < ps.len() && ps[idx] < p
        invariant
            idx <= ps.len(),
            ps@ == orig,
            sorted_strict(orig),
            forall|l: int| 0 <= l < idx ==> orig[l] < p,
        decreases ps.len() - idx,
    {
        idx = idx + 1;
    }
    if idx < ps.len() && ps[idx] == p {
        proof {
            assert(orig.contains(orig[idx as int]));
        }
        return ;
    }
    ps.insert(idx, p);
    proof {
        orig.insert_ensures(idx as int, p);
        assert forall|i: int, j: int| 0 <= i < j < ps@.len() implies ps@[i] < ps@[j] by {
            if j < idx {
            } else if i < idx && j == idx {
            } else if i < idx {
                assert(ps@[j] == orig[j - 1]);
            } else if i == idx {
                assert(ps@[j] == orig[j - 1]);
                assert(orig[idx as int] <= orig[j - 1]);
            } else {
                assert(ps@[i] == orig[i - 1]);
                assert(ps@[j] == orig[j - 1]);
            }
        }
        assert forall|x: i32| ps@.contains(x) <==> (orig.contains(x) || x == p) by {
            if ps@.contains(x) {
                let w = choose|i: int| 0 <= i < ps@.len() && ps@[i] == x;
                if w < idx {
                    assert(orig[w] == x);
                    assert(orig.contains(x));
                } else if w == idx {
                } else {
                    assert(orig[w - 1] == x);
                    assert(orig.contains(x));
                }
            }
            if orig.contains(x) {
                let w = choose|i: int| 0 <= i < orig.len() && orig[i] == x;
                if w < idx {
                    assert(ps@[w] == x);
                } else {
                    assert(ps@[w + 1] == x);
                }
                assert(ps@.contains(x));
            }
            if x == p {
                assert(ps@[idx as int] == x);
                assert(ps@.contains(x));
            }
        }
    }
}

/// The index of the first chunk of `chunks` at position `p`.
fn find_chunk(chunks: &Vec<Chunk>, p: i32) -> (r: Option<usize>)
    ensures
        match r {
            Some(j) => {
                &&& j < chunks.len()
                &&& has_position(chunks.deep_view(), p)
                &&& chunks.deep_view()[j as int] == chunk_at(chunks.deep_view(), p)
            },
            None => !has_position(chunks.deep_view(), p),
        },
{
    let ghost s = chunks.deep_view();
    let mut j: usize = 0;
    while j < chunks.len()
        invariant
            j <= chunks.len(),
            s == chunks.deep_view(),
            forall|l: int| 0 <= l < j ==> s[l].position != p,
        decreases chunks.len() - j,
    {
        if chunks[j].position == p {
            proof {
                lemma_chunk_at_from_index(s, p, j as int);
            }
            return Some(j);
        }
        j = j + 1;
    }
    None
}

/// The score recorded for position `p`, if the caller supplied one.
fn lookup_score(scores: &Vec<PositionScore>, p: i32) -> (r: Option<u32>)
    ensures
        r == score_at(scores@, p),
{
    proof {
        assert(scores@.skip(0) =~= scores@);
    }
    let mut j: usize = 0;
    while j < scores.len()
        invariant
            j <= scores.len(),
            score_at(scores@, p) == score_at(scores@.skip(j as int), p),
        decreases scores.len() - j,
    {
        proof {
            assert(scores@.skip(j as int)[0] == scores@[j as int]);
            assert(scores@.skip(j as int).drop_first() =~= scores@.skip(j + 1 as int));
        }
        if scores[j].position == p {
            return Some(scores[j].score);
        }
        j = j + 1;
    }
    proof {
        assert(scores@.skip(scores@.len() as int).len() == 0);
    }
    None
}

/// Compares two ordered chunk collections position by position. Alignment
/// is by raw position index, not content identity: one true insertion or
/// deletion therefore surfaces as a cascade of modified entries on every
/// later position, a documented limitation of this comparison. `scores`
/// carries the externally computed embedding distances, keyed by position;
/// a scored entry is reported only where both sides carry an embedding.
pub fn compare_chunks_semantic(
    from_chunks: Vec<Chunk>,
    to_chunks: Vec<Chunk>,
    scores: &Vec<PositionScore>,
) -> (r: Vec<DiffEntry<Chunk>>)
    requires
        distinct_positions(from_chunks.deep_view()),
        distinct_positions(to_chunks.deep_view()),
    ensures
        is_chunk_diff(from_chunks.deep_view(), to_chunks.deep_view(), scores@, r.deep_view()),
{
    let ghost fv = from_chunks.deep_view();
    let ghost tv = to_chunks.deep_view();
    let mut ps: Vec<i32> = Vec::new();
    let mut i: usize = 0;
    while i < from_chunks.len()
        invariant
            i <= from_chunks.len(),
            fv == from_chunks.deep_view(),
            sorted_strict(ps@),
            forall|x: i32| #[trigger]
                ps@.contains(x) <==> exists|l: int| 0 <= l < i && fv[l].position == x,
        decreases from_chunks.len() - i,
    {
        let ghost before = ps@;
        insert_position(&mut ps, from_chunks[i].position);
        proof {
            let p0 = fv[i as int].position;
            assert forall|x: i32| #[trigger] ps@.contains(x) implies exists|l: int|
                0 <= l < i + 1 && fv[l].position == x by {
                if x == p0 {
                    assert(fv[i as int].position == x);
                } else {
                    assert(before.contains(x));
                    let w = choose|l: int| 0 <= l < i && fv[l].position == x;
                    assert(fv[w].position == x);
                }
            }
            assert forall|x: i32| (exists|l: int| 0 <= l < i + 1 && fv[l].position == x) implies #[trigger] ps@.contains(x) by {
                let l = choose|l: int| 0 <= l < i + 1 && fv[l].position == x;
                if l < i {
                    assert(before.contains(x));
                } else {
                    assert(x == p0);
                }
            }
        }
        i = i + 1;
    }
    let mut t: usize = 0;
    while t < to_chunks.len()
        invariant
            t <= to_chunks.len(),
            fv == from_chunks.deep_view(),
            tv == to_chunks.deep_view(),
            sorted_strict(ps@),
            forall|x: i32| #[trigger]
                ps@.contains(x) <==> has_position(fv, x) || exists|l: int|
                    0 <= l < t && tv[l].position == x,
        decreases to_chunks.len() - t,
    {
        let ghost before = ps@;
        insert_position(&mut ps, to_chunks[t].position);
        proof {
            let p0 = tv[t as int].position;
            assert forall|x: i32| #[trigger] ps@.contains(x) implies has_position(fv, x) || exists|l: int|
                0 <= l < t + 1 && tv[l].position == x by {
                if x == p0 {
                    assert(tv[t as int].position == x);
                } else {
                    assert(before.contains(x));
                    if !has_position(fv, x) {
                        let w = choose|l: int| 0 <= l < t && tv[l].position == x;
                        assert(tv[w].position == x);
                    }
                }
            }
            assert forall|x: i32| (has_position(fv, x) || exists|l: int|
                0 <= l < t + 1 && tv[l].position == x) implies #[trigger] ps@.contains(x) by {
                if has_position(fv, x) {
                    assert(before.contains(x));
                } else {
                    let l = choose|l: int| 0 <= l < t + 1 && tv[l].position == x;
                    if l < t {
                        assert(before.contains(x));
                    } else {
                        assert(x == p0);
                    }
                }
            }
        }
        t = t + 1;
    }
    proof {
        assert forall|x: i32| #[trigger] ps@.contains(x) <==> has_position(fv, x) || has_position(
            tv,
            x,
        ) by {
            if ps@.contains(x) && !has_position(fv, x) {
                let w = choose|l: int| 0 <= l < tv.len() && tv[l].position == x;
                assert(has_position(tv, x));
            }
        }
    }
    let mut result: Vec<DiffEntry<Chunk>> = Vec::new();
    let mut k: usize = 0;
    while k < ps.len()
        invariant
            k <= ps.len(),
            fv == from_chunks.deep_view(),
            tv == to_chunks.deep_view(),
            distinct_positions(fv),
            distinct_positions(tv),
            sorted_strict(ps@),
            forall|x: i32| #[trigger] ps@.contains(x) <==> has_position(fv, x) || has_position(tv, x),
            result.deep_view().len() == k,
            forall|l: int|
                0 <= l < k ==> #[trigger] result.deep_view()[l] == chunk_entry(fv, tv, scores@, ps@[l]),
            forall|l: int| 0 <= l < k ==> (#[trigger] result.deep_view()[l]).item.position == ps@[l],
        decreases ps.len() - k,
    {
        let ghost prev = result.deep_view();
        let p = ps[k];
        proof {
            assert(ps@.contains(p));
        }
        match (find_chunk(&from_chunks, p), find_chunk(&to_chunks, p)) {
            (Some(a), Some(b)) => {
                proof {
                    lemma_chunk_at_props(fv, p);
                    lemma_chunk_at_props(tv, p);
                }
                if eq_opt_string(&from_chunks[a].text_content, &to_chunks[b].text_content) {
                    let entry = DiffEntry {
                        status: DiffStatus::Unchanged,
                        item: to_chunks[b].clone(),
                        modified_from: None,
                        semantic_distance: Some(0u32),
                    };
                    proof {
                        assert(entry.deep_view() == chunk_entry(fv, tv, scores@, p));
                    }
                    result.push(entry);
                } else {
                    let distance = if from_chunks[a].embedding.is_some()
                        && to_chunks[b].embedding.is_some() {
                        lookup_score(scores, p)
                    } else {
                        None
                    };
                    let entry = DiffEntry {
                        status: DiffStatus::Modified,
                        item: to_chunks[b].clone(),
                        modified_from: Some(from_chunks[a].clone()),
                        semantic_distance: distance,
                    };
                    proof {
                        assert(entry.deep_view() == chunk_entry(fv, tv, scores@, p));
                    }
                    result.push(entry);
                }
            },
            (Some(a), None) => {
                proof {
                    lemma_chunk_at_props(fv, p);
                }
                let entry = DiffEntry {
                    status: DiffStatus::Removed,
                    item: from_chunks[a].clone(),
                    modified_from: None,
                    semantic_distance: None,
                };
                proof {
                    assert(entry.deep_view() == chunk_entry(fv, tv, scores@, p));
                }
                result.push(entry);
            },
            (None, Some(b)) => {
                proof {
                    lemma_chunk_at_props(tv, p);
                }
                let entry = DiffEntry {
                    status: DiffStatus::Added,
                    item: to_chunks[b].clone(),
                    modified_from: None,
                    semantic_distance: None,
                };
                proof {
                    assert(entry.deep_view() == chunk_entry(fv, tv, scores@, p));
                }
                result.push(entry);
            },
            (None, None) => {
                proof {
                    assert(false);
                }
            },
        }
        proof {
            assert(result.deep_view() =~= prev.push(chunk_entry(fv, tv, scores@, p)));
        }
        k = k + 1;
    }
    proof {
        let rd = result.deep_view();
        assert forall|p: i32|
            has_position(fv, p) || has_position(tv, p) implies exists|i2: int|
            0 <= i2 < rd.len() && (#[trigger] rd[i2]).item.position == p by {
            assert(ps@.contains(p));
            let w = choose|i2: int| 0 <= i2 < ps@.len() && ps@[i2] == p;
            assert(rd[w].item.position == p);
        }
        assert forall|i2: int, j2: int| 0 <= i2 < j2 < rd.len() implies rd[i2].item.position
            < rd[j2].item.position by {
            assert(rd[i2].item.position == ps@[i2]);
            assert(rd[j2].item.position == ps@[j2]);
        }
        assert forall|i2: int|
            0 <= i2 < rd.len() implies has_position(fv, (#[trigger] rd[i2]).item.position)
            || has_position(tv, rd[i2].item.position) by {
            assert(rd[i2].item.position == ps@[i2]);
            assert(ps@.contains(ps@[i2]));
        }
        assert forall|i2: int|
            0 <= i2 < rd.len() implies #[trigger] rd[i2] == chunk_entry(
            fv,
            tv,
            scores@,
            rd[i2].item.position,
        ) by {
            assert(rd[i2].item.position == ps@[i2]);
            assert(rd[i2] == chunk_entry(fv, tv, scores@, ps@[i2]));
        }
    }
    result
}

} // verus!
