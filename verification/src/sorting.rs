//! Ordering cached objects by age.
//!
//! `oldest_first` says what the order is: ascending by creation time, with
//! files of one age in the order in which they came. `sort_oldest_first`
//! computes it by merging.

use vstd::prelude::*;
use crate::task::{lemma_total_size_first, total_size, CacheFile, CacheFileView};

verus! {

/// `sorted` with `file` put in front of its first element that is not older
/// than `file`, or at the end where every element is older.
pub open spec fn placed(file: CacheFileView, sorted: Seq<CacheFileView>) -> Seq<CacheFileView>
    decreases sorted.len(),
{
    if sorted.len() == 0 {
        seq![file]
    } else if file.created <= sorted.first().created {
        seq![file] + sorted
    } else {
        seq![sorted.first()] + placed(file, sorted.drop_first())
    }
}

/// `files` from the oldest to the youngest; files of one age keep the order
/// they have in `files`.
pub open spec fn oldest_first(files: Seq<CacheFileView>) -> Seq<CacheFileView>
    decreases files.len(),
{
    if files.len() == 0 {
        files
    } else {
        placed(files.first(), oldest_first(files.drop_first()))
    }
}

/// Whether `files` runs from the oldest to the youngest.
pub open spec fn is_oldest_first(files: Seq<CacheFileView>) -> bool {
    forall|i: int, j: int| 0 <= i <= j < files.len() ==> files[i].created <= files[j].created
}

/// The files of `files` that were created at `age`, in order.
pub open spec fn of_age(files: Seq<CacheFileView>, age: i128) -> Seq<CacheFileView> {
    files.filter(|f: CacheFileView| f.created == age)
}

/// The number of leading elements of `sorted` that are older than `file`.
pub open spec fn place_index(file: CacheFileView, sorted: Seq<CacheFileView>) -> int
    decreases sorted.len(),
{
    if sorted.len() == 0 || file.created <= sorted.first().created {
        0
    } else {
        1 + place_index(file, sorted.drop_first())
    }
}

/// `placed` inserts the file at `place_index`: behind the leading elements
/// that are older, in front of one that is not.
proof fn lemma_placed_is_insert(file: CacheFileView, sorted: Seq<CacheFileView>)
    ensures
        0 <= place_index(file, sorted) <= sorted.len(),
        forall|j: int| 0 <= j < place_index(file, sorted) ==> sorted[j].created < file.created,
        place_index(file, sorted) < sorted.len() ==> file.created <= sorted[place_index(
            file,
            sorted,
        )].created,
        placed(file, sorted) == sorted.insert(place_index(file, sorted), file),
    decreases sorted.len(),
{
    let at = place_index(file, sorted);
    if sorted.len() == 0 || file.created <= sorted.first().created {
    } else {
        let rest = sorted.drop_first();
        lemma_placed_is_insert(file, rest);
        assert forall|j: int| 0 <= j < at implies sorted[j].created < file.created by {
            if j > 0 {
                assert(sorted[j] == rest[j - 1]);
            }
        }
        if at < sorted.len() {
            assert(sorted[at] == rest[at - 1]);
        }
    }
    lemma_placed_at(file, sorted, at);
}

/// Placing a file into a sequence that runs from the oldest to the youngest
/// leaves it so.
proof fn lemma_placed_sorted(file: CacheFileView, sorted: Seq<CacheFileView>)
    requires
        is_oldest_first(sorted),
    ensures
        is_oldest_first(placed(file, sorted)),
{
    lemma_placed_is_insert(file, sorted);
    let at = place_index(file, sorted);
    let out = sorted.insert(at, file);
    sorted.insert_ensures(at, file);
    assert forall|i: int, j: int| 0 <= i <= j < out.len() implies out[i].created
        <= out[j].created by {
        if i < at {
            assert(out[i] == sorted[i]);
        } else if i > at {
            assert(out[i] == sorted[i - 1]);
        }
        if j < at {
            assert(out[j] == sorted[j]);
        } else if j > at {
            assert(out[j] == sorted[j - 1]);
        }
        if i < at && j > at {
            assert(sorted[i].created <= sorted[j - 1].created);
        }
        if i == at && j > at {
            assert(sorted[at].created <= sorted[j - 1].created);
        }
    }
}

/// Ordering by age yields a sequence that runs from the oldest to the
/// youngest and holds the same files, each as often as before.
pub proof fn lemma_oldest_first_sorts(files: Seq<CacheFileView>)
    ensures
        is_oldest_first(oldest_first(files)),
        oldest_first(files).to_multiset() == files.to_multiset(),
    decreases files.len(),
{
    broadcast use vstd::seq_lib::to_multiset_insert;

    if files.len() > 0 {
        let rest = files.drop_first();
        let sorted = oldest_first(rest);
        lemma_oldest_first_sorts(rest);
        lemma_placed_sorted(files.first(), sorted);
        lemma_placed_is_insert(files.first(), sorted);
        assert(files =~= rest.insert(0, files.first()));
        assert(oldest_first(files).to_multiset() =~= files.to_multiset());
    }
}

/// Placing a file puts it in front of the files of its own age and changes
/// nothing among the files of any other age.
proof fn lemma_placed_keeps_order(file: CacheFileView, sorted: Seq<CacheFileView>, age: i128)
    ensures
        of_age(placed(file, sorted), age) == (if file.created == age {
            seq![file]
        } else {
            Seq::empty()
        }) + of_age(sorted, age),
    decreases sorted.len(),
{
    let of_age = |f: CacheFileView| f.created == age;
    let own = if file.created == age {
        seq![file]
    } else {
        Seq::empty()
    };
    if sorted.len() == 0 {
        sorted.lemma_filter_prepend(file, of_age);
        assert(seq![file] + sorted =~= seq![file]);
    } else if file.created <= sorted.first().created {
        sorted.lemma_filter_prepend(file, of_age);
    } else {
        let first = sorted.first();
        let rest = sorted.drop_first();
        let head = if first.created == age {
            seq![first]
        } else {
            Seq::empty()
        };
        lemma_placed_keeps_order(file, rest, age);
        placed(file, rest).lemma_filter_prepend(first, of_age);
        rest.lemma_filter_prepend(first, of_age);
        assert(seq![first] + rest =~= sorted);
        assert(head + (own + rest.filter(of_age)) =~= own + (head + rest.filter(of_age)));
    }
}

/// Ordering by age is stable: the files of any one age stand in the order
/// in which they were listed.
pub proof fn lemma_oldest_first_is_stable(files: Seq<CacheFileView>, age: i128)
    ensures
        of_age(oldest_first(files), age) == of_age(files, age),
    decreases files.len(),
{
    let of_age = |f: CacheFileView| f.created == age;
    if files.len() > 0 {
        let rest = files.drop_first();
        lemma_oldest_first_is_stable(rest, age);
        lemma_placed_keeps_order(files.first(), oldest_first(rest), age);
        rest.lemma_filter_prepend(files.first(), of_age);
        assert(seq![files.first()] + rest =~= files);
    }
}

/// Placing a file adds one element and its size.
proof fn lemma_placed_total(file: CacheFileView, sorted: Seq<CacheFileView>)
    ensures
        placed(file, sorted).len() == sorted.len() + 1,
        total_size(placed(file, sorted)) == total_size(sorted) + file.size,
    decreases sorted.len(),
{
    let out = placed(file, sorted);
    if sorted.len() == 0 {
        assert(out.drop_last() =~= sorted);
    } else if file.created <= sorted.first().created {
        lemma_total_size_first(out);
        assert(out.drop_first() =~= sorted);
    } else {
        lemma_placed_total(file, sorted.drop_first());
        lemma_total_size_first(out);
        lemma_total_size_first(sorted);
        assert(out.drop_first() =~= placed(file, sorted.drop_first()));
    }
}

/// Ordering by age keeps the number of files and their total size.
pub proof fn lemma_oldest_first_total(files: Seq<CacheFileView>)
    ensures
        oldest_first(files).len() == files.len(),
        total_size(oldest_first(files)) == total_size(files),
    decreases files.len(),
{
    if files.len() > 0 {
        lemma_oldest_first_total(files.drop_first());
        lemma_placed_total(files.first(), oldest_first(files.drop_first()));
        lemma_total_size_first(files);
    }
}

/// Where `placed` puts a file: behind the elements that are older than it,
/// in front of the first that is not.
proof fn lemma_placed_at(file: CacheFileView, sorted: Seq<CacheFileView>, at: int)
    requires
        0 <= at <= sorted.len(),
        forall|j: int| 0 <= j < at ==> sorted[j].created < file.created,
        at < sorted.len() ==> file.created <= sorted[at].created,
    ensures
        placed(file, sorted) == sorted.insert(at, file),
    decreases at,
{
    if at == 0 {
        assert(sorted.insert(0, file) =~= seq![file] + sorted);
    } else {
        let rest = sorted.drop_first();
        assert forall|j: int| 0 <= j < at - 1 implies rest[j].created < file.created by {
            assert(rest[j] == sorted[j + 1]);
        }
        lemma_placed_at(file, rest, at - 1);
        assert(sorted.insert(at, file) =~= seq![sorted.first()] + rest.insert(at - 1, file));
    }
}


/// Two sequences that run from the oldest to the youngest, as one such
/// sequence; of two files of one age, the one from `left` comes first.
pub open spec fn merged(left: Seq<CacheFileView>, right: Seq<CacheFileView>) -> Seq<
    CacheFileView,
>
    decreases left.len() + right.len(),
{
    if left.len() == 0 {
        right
    } else if right.len() == 0 {
        left
    } else if left.last().created > right.last().created {
        merged(left.drop_last(), right).push(left.last())
    } else {
        merged(left, right.drop_last()).push(right.last())
    }
}

/// No file of `files` is younger than `limit`.
pub open spec fn none_younger(files: Seq<CacheFileView>, limit: i128) -> bool {
    forall|i: int| 0 <= i < files.len() ==> (#[trigger] files[i]).created <= limit
}

/// A merge is as long as its two parts together and holds no file younger
/// than they do.
proof fn lemma_merged_bound(left: Seq<CacheFileView>, right: Seq<CacheFileView>, limit: i128)
    requires
        none_younger(left, limit),
        none_younger(right, limit),
    ensures
        none_younger(merged(left, right), limit),
        merged(left, right).len() == left.len() + right.len(),
    decreases left.len() + right.len(),
{
    if left.len() == 0 || right.len() == 0 {
    } else if left.last().created > right.last().created {
        let rest = left.drop_last();
        assert forall|i: int| 0 <= i < rest.len() implies (#[trigger] rest[i]).created
            <= limit by {
            assert(rest[i] == left[i]);
        }
        lemma_merged_bound(rest, right, limit);
    } else {
        let rest = right.drop_last();
        assert forall|i: int| 0 <= i < rest.len() implies (#[trigger] rest[i]).created
            <= limit by {
            assert(rest[i] == right[i]);
        }
        lemma_merged_bound(left, rest, limit);
    }
}

/// A sequence that runs from the oldest to the youngest still does without
/// its last file, which is its youngest.
proof fn lemma_sorted_prefix(files: Seq<CacheFileView>)
    requires
        is_oldest_first(files),
        files.len() > 0,
    ensures
        is_oldest_first(files.drop_last()),
        none_younger(files.drop_last(), files.last().created),
        none_younger(files, files.last().created),
{
    let rest = files.drop_last();
    assert forall|i: int, j: int| 0 <= i <= j < rest.len() implies rest[i].created
        <= rest[j].created by {
        assert(rest[i] == files[i] && rest[j] == files[j]);
    }
    assert forall|i: int| 0 <= i < rest.len() implies (#[trigger] rest[i]).created
        <= files.last().created by {
        assert(rest[i] == files[i]);
    }
}

/// Merging two sequences that run from the oldest to the youngest gives
/// one that does.
proof fn lemma_merged_sorted(left: Seq<CacheFileView>, right: Seq<CacheFileView>)
    requires
        is_oldest_first(left),
        is_oldest_first(right),
    ensures
        is_oldest_first(merged(left, right)),
    decreases left.len() + right.len(),
{
    if left.len() == 0 || right.len() == 0 {
    } else {
        lemma_sorted_prefix(left);
        lemma_sorted_prefix(right);
        let out = merged(left, right);
        if left.last().created > right.last().created {
            let rest = merged(left.drop_last(), right);
            lemma_merged_sorted(left.drop_last(), right);
            assert forall|i: int| 0 <= i < right.len() implies (#[trigger] right[i]).created
                <= left.last().created by {}
            lemma_merged_bound(left.drop_last(), right, left.last().created);
            assert forall|i: int, j: int| 0 <= i <= j < out.len() implies out[i].created
                <= out[j].created by {
                if j < rest.len() {
                    assert(out[i] == rest[i] && out[j] == rest[j]);
                } else if i < rest.len() {
                    assert(out[i] == rest[i]);
                }
            }
        } else {
            let rest = merged(left, right.drop_last());
            lemma_merged_sorted(left, right.drop_last());
            assert forall|i: int| 0 <= i < left.len() implies (#[trigger] left[i]).created
                <= right.last().created by {}
            lemma_merged_bound(left, right.drop_last(), right.last().created);
            assert forall|i: int, j: int| 0 <= i <= j < out.len() implies out[i].created
                <= out[j].created by {
                if j < rest.len() {
                    assert(out[i] == rest[i] && out[j] == rest[j]);
                } else if i < rest.len() {
                    assert(out[i] == rest[i]);
                }
            }
        }
    }
}

/// A sequence whose files are all older than `age` holds none of that age.
proof fn lemma_none_of_age(files: Seq<CacheFileView>, limit: i128, age: i128)
    requires
        none_younger(files, limit),
        limit < age,
    ensures
        of_age(files, age) == Seq::<CacheFileView>::empty(),
{
    let pred = |f: CacheFileView| f.created == age;
    assert(files.all(|x: CacheFileView| !pred(x))) by {
        assert forall|i: int| 0 <= i < files.len() implies !pred(#[trigger] files[i]) by {}
    }
    files.lemma_all_neg_filter_empty(pred);
    assert(of_age(files, age) =~= Seq::<CacheFileView>::empty());
}

/// In a merge the files of one age are those of `left` followed by those
/// of `right`.
proof fn lemma_merged_of_age(left: Seq<CacheFileView>, right: Seq<CacheFileView>, age: i128)
    requires
        is_oldest_first(left),
        is_oldest_first(right),
    ensures
        of_age(merged(left, right), age) == of_age(left, age) + of_age(right, age),
    decreases left.len() + right.len(),
{
    let pred = |f: CacheFileView| f.created == age;
    if left.len() == 0 {
        reveal(Seq::filter);
        assert(of_age(left, age) =~= Seq::<CacheFileView>::empty());
        assert(of_age(left, age) + of_age(right, age) =~= of_age(right, age));
    } else if right.len() == 0 {
        reveal(Seq::filter);
        assert(of_age(right, age) =~= Seq::<CacheFileView>::empty());
        assert(of_age(left, age) + of_age(right, age) =~= of_age(left, age));
    } else {
        lemma_sorted_prefix(left);
        lemma_sorted_prefix(right);
        if left.last().created > right.last().created {
            let rest = left.drop_last();
            let x = left.last();
            lemma_merged_of_age(rest, right, age);
            merged(rest, right).lemma_filter_push(x, pred);
            rest.lemma_filter_push(x, pred);
            assert(rest.push(x) =~= left);
            if x.created == age {
                lemma_none_of_age(right, right.last().created, age);
                assert((of_age(rest, age) + of_age(right, age)).push(x) =~= of_age(rest, age).push(
                    x,
                ) + of_age(right, age));
            }
        } else {
            let rest = right.drop_last();
            let y = right.last();
            lemma_merged_of_age(left, rest, age);
            merged(left, rest).lemma_filter_push(y, pred);
            rest.lemma_filter_push(y, pred);
            assert(rest.push(y) =~= right);
            if y.created == age {
                assert((of_age(left, age) + of_age(rest, age)).push(y) =~= of_age(left, age) + of_age(
                    rest,
                    age,
                ).push(y));
            }
        }
    }
}

/// Two sequences that run from the oldest to the youngest and hold the
/// same files of every age in the same order are one and the same.
pub proof fn lemma_sorted_is_unique(a: Seq<CacheFileView>, b: Seq<CacheFileView>)
    requires
        is_oldest_first(a),
        is_oldest_first(b),
        forall|age: i128| #[trigger] of_age(a, age) == of_age(b, age),
    ensures
        a == b,
    decreases a.len(),
{
    if a.len() == 0 {
        if b.len() > 0 {
            let age = b[0].created;
            let pred = |f: CacheFileView| f.created == age;
            b.lemma_filter_contains(pred, 0);
            assert(of_age(b, age).len() > 0);
            reveal(Seq::filter);
            assert(of_age(a, age).len() == 0);
        }
        assert(a =~= b);
    } else {
        let x = a.first();
        let pred_x = |f: CacheFileView| f.created == x.created;
        a.drop_first().lemma_filter_prepend(x, pred_x);
        assert(seq![x] + a.drop_first() =~= a);
        assert(of_age(a, x.created).len() > 0);
        assert(of_age(a, x.created)[0] == x);
        assert(of_age(a, x.created) == of_age(b, x.created));
        if b.len() == 0 {
            reveal(Seq::filter);
            assert(of_age(b, x.created).len() == 0);
        }
        let y = b.first();
        let pred_y = |f: CacheFileView| f.created == y.created;
        b.drop_first().lemma_filter_prepend(y, pred_y);
        assert(seq![y] + b.drop_first() =~= b);
        assert(of_age(b, y.created)[0] == y);
        // x is a file of b, so it is no older than the first of b, and the
        // other way round.
        let in_b = of_age(b, x.created);
        assert(in_b.contains(in_b[0]));
        b.lemma_filter_contains_rev(pred_x, x);
        let ix = choose|i: int| 0 <= i < b.len() && b[i] == x;
        assert(b[0].created <= b[ix].created);
        let in_a = of_age(a, y.created);
        assert(of_age(a, y.created) == of_age(b, y.created));
        assert(in_a.contains(in_a[0]));
        a.lemma_filter_contains_rev(pred_y, y);
        let iy = choose|i: int| 0 <= i < a.len() && a[i] == y;
        assert(a[0].created <= a[iy].created);
        assert(x.created == y.created);
        assert(x == y);
        let ra = a.drop_first();
        let rb = b.drop_first();
        assert forall|i: int, j: int| 0 <= i <= j < ra.len() implies ra[i].created
            <= ra[j].created by {
            assert(ra[i] == a[i + 1] && ra[j] == a[j + 1]);
        }
        assert forall|i: int, j: int| 0 <= i <= j < rb.len() implies rb[i].created
            <= rb[j].created by {
            assert(rb[i] == b[i + 1] && rb[j] == b[j + 1]);
        }
        assert forall|age: i128| #[trigger] of_age(ra, age) == of_age(rb, age) by {
            let pred = |f: CacheFileView| f.created == age;
            ra.lemma_filter_prepend(x, pred);
            rb.lemma_filter_prepend(y, pred);
            assert(of_age(a, age) == of_age(b, age));
            if x.created == age {
                assert(of_age(ra, age) =~= of_age(a, age).drop_first());
                assert(of_age(rb, age) =~= of_age(b, age).drop_first());
            } else {
                assert(of_age(ra, age) =~= of_age(a, age));
                assert(of_age(rb, age) =~= of_age(b, age));
            }
        }
        lemma_sorted_is_unique(ra, rb);
    }
}

/// Ordering two sequences one after the other is ordering each and
/// merging the two.
pub proof fn lemma_oldest_first_merges(left: Seq<CacheFileView>, right: Seq<CacheFileView>)
    ensures
        oldest_first(left + right) == merged(oldest_first(left), oldest_first(right)),
{
    let a = oldest_first(left + right);
    let b = merged(oldest_first(left), oldest_first(right));
    lemma_oldest_first_sorts(left + right);
    lemma_oldest_first_sorts(left);
    lemma_oldest_first_sorts(right);
    lemma_merged_sorted(oldest_first(left), oldest_first(right));
    assert forall|age: i128| #[trigger] of_age(a, age) == of_age(b, age) by {
        let pred = |f: CacheFileView| f.created == age;
        lemma_oldest_first_is_stable(left + right, age);
        lemma_oldest_first_is_stable(left, age);
        lemma_oldest_first_is_stable(right, age);
        lemma_merged_of_age(oldest_first(left), oldest_first(right), age);
        Seq::filter_distributes_over_add(left, right, pred);
    }
    lemma_sorted_is_unique(a, b);
}


/// The order of zero or one file is the file itself.
proof fn lemma_oldest_first_of_few(files: Seq<CacheFileView>)
    requires
        files.len() <= 1,
    ensures
        oldest_first(files) == files,
{
    if files.len() == 1 {
        assert(files.drop_first() =~= Seq::<CacheFileView>::empty());
        assert(oldest_first(files.drop_first()) =~= Seq::<CacheFileView>::empty());
        assert(seq![files.first()] =~= files);
    }
}

/// `items` from the last to the first.
fn reversed<T>(items: Vec<T>) -> (out: Vec<T>)
    ensures
        out@.len() == items@.len(),
        forall|i: int| 0 <= i < out@.len() ==> out@[i] == items@[items@.len() - 1 - i],
{
    let ghost all = items@;
    let mut rest = items;
    let mut out: Vec<T> = Vec::new();
    loop
        invariant
            rest@.len() + out@.len() == all.len(),
            forall|j: int| 0 <= j < rest@.len() ==> rest@[j] == all[j],
            forall|i: int| 0 <= i < out@.len() ==> out@[i] == all[all.len() - 1 - i],
        ensures
            rest@.len() == 0,
        decreases rest@.len(),
    {
        match rest.pop() {
            Some(item) => {
                out.push(item);
            },
            None => {
                break ;
            },
        }
    }
    out
}

/// `files` from the last to the first.
pub open spec fn flipped(files: Seq<CacheFileView>) -> Seq<CacheFileView>
    decreases files.len(),
{
    if files.len() == 0 {
        files
    } else {
        seq![files.last()] + flipped(files.drop_last())
    }
}

/// Where each file stands after a flip.
proof fn lemma_flipped(files: Seq<CacheFileView>)
    ensures
        flipped(files).len() == files.len(),
        forall|i: int|
            0 <= i < files.len() ==> (#[trigger] flipped(files)[i]) == files[files.len() - 1 - i],
    decreases files.len(),
{
    if files.len() > 0 {
        let rest = files.drop_last();
        lemma_flipped(rest);
        assert forall|i: int| 0 <= i < files.len() implies (#[trigger] flipped(files)[i])
            == files[files.len() - 1 - i] by {
            if i > 0 {
                assert(flipped(files)[i] == flipped(rest)[i - 1]);
                assert(rest[rest.len() - 1 - (i - 1)] == files[files.len() - 1 - i]);
            }
        }
    }
}

/// One step of a merge from the back: the younger of the two last files,
/// the right one among equals, is the last file of the merge.
proof fn lemma_merged_last(left: Seq<CacheFileView>, right: Seq<CacheFileView>, from_left: bool)
    requires
        left.len() + right.len() > 0,
        from_left == (right.len() == 0 || (left.len() > 0 && left.last().created
            > right.last().created)),
    ensures
        from_left ==> left.len() > 0 && merged(left, right) == merged(
            left.drop_last(),
            right,
        ).push(left.last()),
        !from_left ==> right.len() > 0 && merged(left, right) == merged(
            left,
            right.drop_last(),
        ).push(right.last()),
{
    if right.len() == 0 {
        assert(merged(left, right) == left);
        assert(merged(left.drop_last(), right) == left.drop_last());
        assert(left.drop_last().push(left.last()) =~= left);
    } else if left.len() == 0 {
        assert(merged(left, right) == right);
        assert(merged(left, right.drop_last()) == right.drop_last());
        assert(right.drop_last().push(right.last()) =~= right);
    }
}

/// A file moved from the end of a merge to the end of the flipped rest
/// stays where it was.
proof fn lemma_flipped_push(
    front: Seq<CacheFileView>,
    file: CacheFileView,
    back: Seq<CacheFileView>,
)
    ensures
        front.push(file) + flipped(back) == front + flipped(back.push(file)),
{
    assert(back.push(file).drop_last() =~= back);
    assert(flipped(back.push(file)) == seq![file] + flipped(back));
    assert(front.push(file) + flipped(back) =~= front + (seq![file] + flipped(back)));
}

/// The view of a vector that lost its last element.
proof fn lemma_popped(before: Vec<CacheFile>, after: Vec<CacheFile>, file: CacheFile)
    requires
        before@.len() > 0,
        after@ == before@.drop_last(),
        file == before@.last(),
    ensures
        after.deep_view() == before.deep_view().drop_last(),
        file@ == before.deep_view().last(),
{
    assert(after.deep_view() =~= before.deep_view().drop_last());
}

/// The view of a vector that gained a last element.
proof fn lemma_pushed(before: Vec<CacheFile>, after: Vec<CacheFile>, file: CacheFile)
    requires
        after@ == before@.push(file),
    ensures
        after.deep_view() == before.deep_view().push(file@),
{
    assert(after.deep_view() =~= before.deep_view().push(file@));
}

/// Merges two vectors that run from the oldest to the youngest into one.
pub fn merge(left: Vec<CacheFile>, right: Vec<CacheFile>) -> (out: Vec<CacheFile>)
    ensures
        out.deep_view() == merged(left.deep_view(), right.deep_view()),
{
    let ghost whole = merged(left.deep_view(), right.deep_view());
    let mut left = left;
    let mut right = right;
    let mut back: Vec<CacheFile> = Vec::new();
    proof {
        assert(back.deep_view() =~= Seq::<CacheFileView>::empty());
        assert(whole + flipped(back.deep_view()) =~= whole);
    }
    loop
        invariant
            whole == merged(left.deep_view(), right.deep_view()) + flipped(back.deep_view()),
        ensures
            left.len() == 0,
            right.len() == 0,
        decreases left.len() + right.len(),
    {
        if left.len() == 0 && right.len() == 0 {
            break ;
        }
        let from_left = right.len() == 0 || (left.len() > 0 && left[left.len() - 1].created
            > right[right.len() - 1].created);
        let ghost old_left = left;
        let ghost old_right = right;
        let ghost old_back = back;
        proof {
            if left.len() > 0 {
                assert(left.deep_view().last() == left[left.len() - 1]@);
            }
            if right.len() > 0 {
                assert(right.deep_view().last() == right[right.len() - 1]@);
            }
            lemma_merged_last(left.deep_view(), right.deep_view(), from_left);
        }
        let popped = if from_left {
            left.pop()
        } else {
            right.pop()
        };
        match popped {
            Some(file) => {
                proof {
                    if from_left {
                        lemma_popped(old_left, left, file);
                    } else {
                        lemma_popped(old_right, right, file);
                    }
                    lemma_flipped_push(
                        merged(left.deep_view(), right.deep_view()),
                        file@,
                        old_back.deep_view(),
                    );
                }
                let ghost moved = file;
                back.push(file);
                proof {
                    lemma_pushed(old_back, back, moved);
                }
            },
            None => {},
        }
    }
    let ghost youngest_first = back.deep_view();
    proof {
        assert(left.deep_view() =~= Seq::<CacheFileView>::empty());
        assert(whole =~= flipped(youngest_first));
        lemma_flipped(youngest_first);
    }
    let out = reversed(back);
    assert(out.deep_view() =~= flipped(youngest_first));
    out
}

/// Ordering a sequence is ordering its two parts and merging them.
proof fn lemma_oldest_first_splits(files: Seq<CacheFileView>, at: int)
    requires
        0 <= at <= files.len(),
    ensures
        oldest_first(files) == merged(
            oldest_first(files.subrange(0, at)),
            oldest_first(files.subrange(at, files.len() as int)),
        ),
{
    let left = files.subrange(0, at);
    let right = files.subrange(at, files.len() as int);
    assert(left + right =~= files);
    lemma_oldest_first_merges(left, right);
}

/// Orders `files` from the oldest to the youngest, keeping the order of files
/// of one age.
pub fn sort_oldest_first(files: Vec<CacheFile>) -> (sorted: Vec<CacheFile>)
    ensures
        sorted.deep_view() == oldest_first(files.deep_view()),
    decreases files.len(),
{
    let n: usize = files.len();
    if n <= 1 {
        proof {
            lemma_oldest_first_of_few(files.deep_view());
        }
        return files;
    }
    let ghost all = files.deep_view();
    let half: usize = n / 2;
    let mut left = files;
    let right = left.split_off(half);
    proof {
        assert(left.deep_view() =~= all.subrange(0, half as int));
        assert(right.deep_view() =~= all.subrange(half as int, n as int));
        lemma_oldest_first_splits(all, half as int);
    }
    let left = sort_oldest_first(left);
    let right = sort_oldest_first(right);
    merge(left, right)
}

} // verus!
