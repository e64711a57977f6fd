//! The listing: which entries of a directory are shown, and in what order.

use crate::entry::{is_dot_name, starts_with_dot, views, File, FileType, FileView};
use vstd::prelude::*;

verus! {

/// `sorted` with `file` put in front of the first entry that is not newer than
/// it.
pub open spec fn placed(sorted: Seq<FileView>, file: FileView) -> Seq<FileView>
    decreases sorted.len(),
{
    if sorted.len() == 0 || sorted.first().modified_time <= file.modified_time {
        seq![file] + sorted
    } else {
        seq![sorted.first()] + placed(sorted.drop_first(), file)
    }
}

/// `files` from the newest to the oldest. Each entry in turn is put in front of
/// the first one that is not newer, so of two entries modified at the same
/// instant the one that came later in `files` stands first.
pub open spec fn newest_first(files: Seq<FileView>) -> Seq<FileView>
    decreases files.len(),
{
    if files.len() == 0 {
        Seq::empty()
    } else {
        placed(newest_first(files.drop_last()), files.last())
    }
}

/// Two sequences woven into one by always taking the newer of the two first
/// entries, and the one of `later` where both are equally new.
pub open spec fn merged(earlier: Seq<FileView>, later: Seq<FileView>) -> Seq<FileView>
    decreases earlier.len() + later.len(),
{
    if earlier.len() == 0 {
        later
    } else if later.len() == 0 {
        earlier
    } else if later.first().modified_time >= earlier.first().modified_time {
        seq![later.first()] + merged(earlier, later.drop_first())
    } else {
        seq![earlier.first()] + merged(earlier.drop_first(), later)
    }
}

/// Weaving with nothing changes nothing.
proof fn lemma_merged_with_nothing(files: Seq<FileView>)
    ensures
        merged(files, Seq::empty()) == files,
        merged(Seq::empty(), files) == files,
{
}

/// Placing an entry into a weave is weaving it into the later part.
proof fn lemma_placed_merged(earlier: Seq<FileView>, later: Seq<FileView>, file: FileView)
    ensures
        placed(merged(earlier, later), file) == merged(earlier, placed(later, file)),
    decreases earlier.len() + later.len(),
{
    let woven = merged(earlier, later);
    let put = placed(later, file);
    lemma_merged_with_nothing(earlier);
    if earlier.len() == 0 {
        assert(placed(woven, file) == merged(earlier, put));
    } else if later.len() == 0 {
        assert(put =~= seq![file]);
        assert(put.drop_first() =~= later);
        if earlier.first().modified_time > file.modified_time {
            lemma_placed_merged(earlier.drop_first(), later, file);
            lemma_merged_with_nothing(earlier.drop_first());
            assert(placed(earlier.drop_first(), file) == merged(earlier.drop_first(), put));
        }
        assert(placed(woven, file) == merged(earlier, put));
    } else if later.first().modified_time >= earlier.first().modified_time {
        assert(woven.first() == later.first());
        assert(woven.drop_first() =~= merged(earlier, later.drop_first()));
        if later.first().modified_time <= file.modified_time {
            assert(put.first() == file);
            assert(put.drop_first() =~= later);
        } else {
            lemma_placed_merged(earlier, later.drop_first(), file);
            let rest = placed(later.drop_first(), file);
            assert(put.first() == later.first());
            assert(put.drop_first() =~= rest);
        }
        assert(placed(woven, file) == merged(earlier, put));
    } else {
        assert(woven.first() == earlier.first());
        assert(woven.drop_first() =~= merged(earlier.drop_first(), later));
        if earlier.first().modified_time <= file.modified_time {
            assert(put.first() == file);
            assert(put.drop_first() =~= later);
        } else {
            lemma_placed_merged(earlier.drop_first(), later, file);
            assert(put.len() > 0);
            assert(put.first().modified_time < earlier.first().modified_time);
        }
        assert(placed(woven, file) == merged(earlier, put));
    }
}

/// Ordering two parts and weaving them orders the whole.
proof fn lemma_newest_first_of_parts(earlier: Seq<FileView>, later: Seq<FileView>)
    ensures
        newest_first(earlier + later) == merged(newest_first(earlier), newest_first(later)),
    decreases later.len(),
{
    if later.len() == 0 {
        assert(earlier + later =~= earlier);
    } else {
        assert((earlier + later).drop_last() =~= earlier + later.drop_last());
        lemma_newest_first_of_parts(earlier, later.drop_last());
        lemma_placed_merged(
            newest_first(earlier),
            newest_first(later.drop_last()),
            later.last(),
        );
    }
}

/// Turns a vector round.
fn reversed(files: Vec<File>) -> (turned: Vec<File>)
    ensures
        turned@ == files@.reverse(),
{
    let mut files = files;
    let ghost whole = files@;
    let mut turned: Vec<File> = Vec::new();
    while files.len() > 0
        invariant
            files@ == whole.take(files@.len() as int),
            files@.len() <= whole.len(),
            turned@ == whole.skip(files@.len() as int).reverse(),
        decreases files.len(),
    {
        let file = files.pop().unwrap();
        turned.push(file);
        assert(files@ =~= whole.take(files@.len() as int));
        assert(turned@ =~= whole.skip(files@.len() as int).reverse());
    }
    assert(whole.skip(0) =~= whole);
    turned
}

/// Weaves two vectors, each from the newest to the oldest, into one.
fn merge(earlier: Vec<File>, later: Vec<File>) -> (woven: Vec<File>)
    ensures
        views(woven@) == merged(views(earlier@), views(later@)),
{
    let ghost first = earlier@;
    let ghost second = later@;
    let mut left = reversed(earlier);
    let mut right = reversed(later);
    let mut woven: Vec<File> = Vec::new();
    let ghost mut i: int = 0;
    let ghost mut j: int = 0;
    assert(first.skip(0) =~= first);
    assert(second.skip(0) =~= second);
    assert(views(woven@) + merged(views(first), views(second)) =~= merged(
        views(first),
        views(second),
    ));
    while left.len() > 0 && right.len() > 0
        invariant
            0 <= i <= first.len(),
            0 <= j <= second.len(),
            left@ == first.skip(i).reverse(),
            right@ == second.skip(j).reverse(),
            views(woven@) + merged(views(first.skip(i)), views(second.skip(j))) == merged(
                views(first),
                views(second),
            ),
        decreases left.len() + right.len(),
    {
        let ghost a = views(first.skip(i));
        let ghost b = views(second.skip(j));
        let ghost done = views(woven@);
        assert(a.first() == left@.last()@);
        assert(b.first() == right@.last()@);
        let take_earlier = left[left.len() - 1].modified_time.is_after(
            &right[right.len() - 1].modified_time,
        );
        if take_earlier {
            let file = left.pop().unwrap();
            woven.push(file);
            proof {
                assert(left@ =~= first.skip(i + 1).reverse());
                assert(a.drop_first() =~= views(first.skip(i + 1)));
                assert(views(woven@) =~= done + seq![a.first()]);
                assert(views(woven@) + merged(a.drop_first(), b) =~= done + merged(a, b));
                i = i + 1;
            }
        } else {
            let file = right.pop().unwrap();
            woven.push(file);
            proof {
                assert(right@ =~= second.skip(j + 1).reverse());
                assert(b.drop_first() =~= views(second.skip(j + 1)));
                assert(views(woven@) =~= done + seq![b.first()]);
                assert(views(woven@) + merged(a, b.drop_first()) =~= done + merged(a, b));
                j = j + 1;
            }
        }
    }
    while left.len() > 0
        invariant
            0 <= i <= first.len(),
            0 <= j <= second.len(),
            left@ == first.skip(i).reverse(),
            right@ == second.skip(j).reverse(),
            left@.len() == 0 || right@.len() == 0,
            views(woven@) + merged(views(first.skip(i)), views(second.skip(j))) == merged(
                views(first),
                views(second),
            ),
        decreases left.len(),
    {
        let ghost a = views(first.skip(i));
        let ghost b = views(second.skip(j));
        let ghost done = views(woven@);
        assert(a.first() == left@.last()@);
        let file = left.pop().unwrap();
        woven.push(file);
        proof {
            assert(b.len() == 0);
            assert(left@ =~= first.skip(i + 1).reverse());
            assert(a.drop_first() =~= views(first.skip(i + 1)));
            assert(views(woven@) =~= done + seq![a.first()]);
            assert(merged(a, b) == a);
            lemma_merged_with_nothing(a.drop_first());
            assert(views(woven@) + merged(a.drop_first(), b) =~= done + merged(a, b));
            i = i + 1;
        }
    }
    while right.len() > 0
        invariant
            0 <= i <= first.len(),
            0 <= j <= second.len(),
            left@.len() == 0,
            left@ == first.skip(i).reverse(),
            right@ == second.skip(j).reverse(),
            views(woven@) + merged(views(first.skip(i)), views(second.skip(j))) == merged(
                views(first),
                views(second),
            ),
        decreases right.len(),
    {
        let ghost a = views(first.skip(i));
        let ghost b = views(second.skip(j));
        let ghost done = views(woven@);
        assert(b.first() == right@.last()@);
        let file = right.pop().unwrap();
        woven.push(file);
        proof {
            assert(a.len() == 0);
            assert(right@ =~= second.skip(j + 1).reverse());
            assert(b.drop_first() =~= views(second.skip(j + 1)));
            assert(views(woven@) =~= done + seq![b.first()]);
            assert(views(woven@) + merged(a, b.drop_first()) =~= done + merged(a, b));
            j = j + 1;
        }
    }
    proof {
        assert(views(first.skip(i)).len() == 0);
        assert(views(second.skip(j)).len() == 0);
        assert(views(woven@) + merged(views(first.skip(i)), views(second.skip(j))) =~= views(
            woven@,
        ));
    }
    woven
}

/// Orders `files` from the newest to the oldest.
pub fn sort_newest_first(files: Vec<File>) -> (sorted: Vec<File>)
    ensures
        views(sorted@) == newest_first(views(files@)),
    decreases files@.len(),
{
    let count = files.len();
    if count <= 1 {
        proof {
            if count == 1 {
                reveal_with_fuel(newest_first, 2);
                assert(views(files@).drop_last() =~= Seq::<FileView>::empty());
                assert(newest_first(views(files@)) =~= seq![views(files@).last()]);
                assert(views(files@) =~= seq![views(files@).last()]);
            } else {
                assert(views(files@) =~= Seq::<FileView>::empty());
            }
        }
        return files;
    }
    let ghost whole = files@;
    let mut earlier = files;
    let later = earlier.split_off(count / 2);
    proof {
        assert(views(whole) =~= views(earlier@) + views(later@));
        lemma_newest_first_of_parts(views(earlier@), views(later@));
    }
    let first = sort_newest_first(earlier);
    let second = sort_newest_first(later);
    merge(first, second)
}

/// Whether an entry is among those shown. With `show_hidden` everything is;
/// without it only regular files and directories whose name does not begin
/// with a dot.
pub open spec fn is_listed(file: FileView, show_hidden: bool) -> bool {
    show_hidden || ((file.file_type == FileType::File || file.file_type == FileType::Directory)
        && !is_dot_name(file.name))
}

/// `is_listed` for a fixed `show_hidden`, as a predicate on entries.
pub open spec fn listed(show_hidden: bool) -> spec_fn(FileView) -> bool {
    |file: FileView| is_listed(file, show_hidden)
}

/// The entries of `files` that are shown, from the newest to the oldest.
pub open spec fn candidates(files: Seq<FileView>, show_hidden: bool) -> Seq<FileView> {
    newest_first(files).filter(listed(show_hidden))
}

/// The listing of a directory that holds `files`: the entries that are shown,
/// from the newest to the oldest, and of those the first `num_files`, or all
/// where there are fewer.
pub open spec fn listing(files: Seq<FileView>, num_files: nat, show_hidden: bool) -> Seq<FileView> {
    let shown = candidates(files, show_hidden);
    if num_files < shown.len() {
        shown.take(num_files as int)
    } else {
        shown
    }
}

/// No entry is followed by a newer one.
pub open spec fn descending(files: Seq<FileView>) -> bool {
    forall|i: int, j: int|
        0 <= i < j < files.len() ==> (#[trigger] files[i]).modified_time >= (
        #[trigger] files[j]).modified_time
}

/// Each entry is newer than all that follow it.
pub open spec fn strictly_descending(files: Seq<FileView>) -> bool {
    forall|i: int, j: int|
        0 <= i < j < files.len() ==> (#[trigger] files[i]).modified_time > (
        #[trigger] files[j]).modified_time
}

/// No two entries were modified at the same instant.
pub open spec fn distinct_times(files: Seq<FileView>) -> bool {
    forall|i: int, j: int|
        0 <= i < j < files.len() ==> (#[trigger] files[i]).modified_time != (
        #[trigger] files[j]).modified_time
}

/// How many entries at the front of `sorted` are newer than `instant`.
pub open spec fn newer_at_front(sorted: Seq<FileView>, instant: int) -> nat
    decreases sorted.len(),
{
    if sorted.len() == 0 || sorted.first().modified_time <= instant {
        0
    } else {
        1 + newer_at_front(sorted.drop_first(), instant)
    }
}

/// Where `placed` puts an entry: behind the entries at the front that are
/// newer than it, and in front of the first that is not.
pub proof fn lemma_placed_position(sorted: Seq<FileView>, file: FileView)
    ensures
        newer_at_front(sorted, file.modified_time) <= sorted.len(),
        placed(sorted, file) == sorted.insert(
            newer_at_front(sorted, file.modified_time) as int,
            file,
        ),
        forall|k: int|
            0 <= k < newer_at_front(sorted, file.modified_time) ==> (
            #[trigger] sorted[k]).modified_time > file.modified_time,
        newer_at_front(sorted, file.modified_time) < sorted.len() ==> sorted[newer_at_front(
            sorted,
            file.modified_time,
        ) as int].modified_time <= file.modified_time,
    decreases sorted.len(),
{
    let at = newer_at_front(sorted, file.modified_time) as int;
    if sorted.len() == 0 || sorted.first().modified_time <= file.modified_time {
        assert(placed(sorted, file) =~= sorted.insert(at, file));
    } else {
        let rest = sorted.drop_first();
        lemma_placed_position(rest, file);
        assert(placed(sorted, file) =~= sorted.insert(at, file));
        assert forall|k: int| 0 <= k < at implies (#[trigger] sorted[k]).modified_time
            > file.modified_time by {
            if k > 0 {
                assert(sorted[k] == rest[k - 1]);
            }
        }
    }
}

/// Ordering neither drops nor adds an entry: the result holds each entry as
/// often as `files` does.
pub proof fn lemma_newest_first_permutes(files: Seq<FileView>)
    ensures
        newest_first(files).to_multiset() == files.to_multiset(),
        newest_first(files).len() == files.len(),
        forall|file: FileView| newest_first(files).contains(file) <==> files.contains(file),
    decreases files.len(),
{
    if files.len() == 0 {
        assert(newest_first(files) =~= files);
    } else {
        let before = newest_first(files.drop_last());
        lemma_newest_first_permutes(files.drop_last());
        lemma_placed_position(before, files.last());
        vstd::seq_lib::to_multiset_insert(
            before,
            newer_at_front(before, files.last().modified_time) as int,
            files.last(),
        );
        vstd::seq_lib::to_multiset_build(files.drop_last(), files.last());
        assert(files.drop_last().push(files.last()) =~= files);
    }
    vstd::seq_lib::to_multiset_len(files);
    vstd::seq_lib::to_multiset_len(newest_first(files));
    assert forall|file: FileView| newest_first(files).contains(file) <==> files.contains(
        file,
    ) by {
        vstd::seq_lib::to_multiset_contains(files, file);
        vstd::seq_lib::to_multiset_contains(newest_first(files), file);
    }
}

/// The order is from the newest to the oldest, and strictly so where no two
/// entries were modified at the same instant.
pub proof fn lemma_newest_first_descending(files: Seq<FileView>)
    ensures
        descending(newest_first(files)),
        distinct_times(files) ==> strictly_descending(newest_first(files)),
    decreases files.len(),
{
    if files.len() > 0 {
        let before = newest_first(files.drop_last());
        let last = files.last();
        let at = newer_at_front(before, last.modified_time) as int;
        let after = newest_first(files);
        lemma_newest_first_descending(files.drop_last());
        lemma_newest_first_permutes(files.drop_last());
        lemma_placed_position(before, last);
        assert forall|i: int, j: int| 0 <= i < j < after.len() implies (
        #[trigger] after[i]).modified_time >= (#[trigger] after[j]).modified_time by {
            if j > at && at < before.len() {
                assert(before[at].modified_time >= before[j - 1].modified_time || j - 1 == at);
            }
            if i < at && j > at {
                assert(before[i].modified_time >= before[j - 1].modified_time);
            }
        }
        if distinct_times(files) {
            assert(distinct_times(files.drop_last())) by {
                assert forall|i: int, j: int| 0 <= i < j < files.drop_last().len() implies (
                #[trigger] files.drop_last()[i]).modified_time != (
                #[trigger] files.drop_last()[j]).modified_time by {
                    assert(files[i].modified_time != files[j].modified_time);
                }
            }
            assert forall|k: int| 0 <= k < before.len() implies (
            #[trigger] before[k]).modified_time != last.modified_time by {
                assert(before.contains(before[k]));
                assert(files.drop_last().contains(before[k]));
                let m = choose|m: int|
                    0 <= m < files.drop_last().len() && files.drop_last()[m] == before[k];
                assert(files[m].modified_time != files[files.len() - 1].modified_time);
            }
            assert forall|i: int, j: int| 0 <= i < j < after.len() implies (
            #[trigger] after[i]).modified_time > (#[trigger] after[j]).modified_time by {
                if j > at && at < before.len() {
                    assert(before[at].modified_time >= before[j - 1].modified_time || j - 1 == at);
                }
                if i < at && j > at {
                    assert(before[i].modified_time > before[j - 1].modified_time);
                }
                if i == at {
                    assert(before[j - 1].modified_time != last.modified_time);
                }
            }
        }
    }
}

/// Of two entries modified at the same instant, the one that comes later in the
/// directory is listed first.
pub proof fn lemma_equally_new_later_first(first: FileView, second: FileView)
    requires
        first.modified_time == second.modified_time,
    ensures
        newest_first(seq![first, second]) == seq![second, first],
{
    reveal_with_fuel(newest_first, 3);
    reveal_with_fuel(placed, 3);
    let both = seq![first, second];
    assert(both.drop_last() =~= seq![first]);
    assert(seq![first].drop_last() =~= Seq::<FileView>::empty());
    assert(newest_first(seq![first]) =~= seq![first]);
    assert(newest_first(both) =~= seq![second, first]);
}

/// Leaving entries out keeps the order of those that stay.
pub proof fn lemma_filter_keeps_order(files: Seq<FileView>, keep: spec_fn(FileView) -> bool)
    ensures
        descending(files) ==> descending(files.filter(keep)),
        strictly_descending(files) ==> strictly_descending(files.filter(keep)),
    decreases files.len(),
{
    reveal(Seq::filter);
    if files.len() > 0 {
        let front = files.drop_last();
        let kept = front.filter(keep);
        lemma_filter_keeps_order(front, keep);
        assert forall|k: int| 0 <= k < kept.len() implies exists|m: int|
            0 <= m < front.len() && front[m] == #[trigger] kept[k] by {
            assert(kept.contains(kept[k]));
            front.lemma_filter_contains_rev(keep, kept[k]);
        }
        if descending(files) {
            assert(descending(front)) by {
                assert forall|i: int, j: int| 0 <= i < j < front.len() implies (
                #[trigger] front[i]).modified_time >= (#[trigger] front[j]).modified_time by {
                    assert(files[i].modified_time >= files[j].modified_time);
                }
            }
            assert forall|k: int| 0 <= k < kept.len() implies (#[trigger] kept[k]).modified_time
                >= files.last().modified_time by {
                let m = choose|m: int| 0 <= m < front.len() && front[m] == kept[k];
                assert(files[m].modified_time >= files[files.len() - 1].modified_time);
            }
        }
        if strictly_descending(files) {
            assert(strictly_descending(front)) by {
                assert forall|i: int, j: int| 0 <= i < j < front.len() implies (
                #[trigger] front[i]).modified_time > (#[trigger] front[j]).modified_time by {
                    assert(files[i].modified_time > files[j].modified_time);
                }
            }
            assert forall|k: int| 0 <= k < kept.len() implies (#[trigger] kept[k]).modified_time
                > files.last().modified_time by {
                let m = choose|m: int| 0 <= m < front.len() && front[m] == kept[k];
                assert(files[m].modified_time > files[files.len() - 1].modified_time);
            }
        }
    }
}

/// The listing runs from the newest entry to the oldest; where no two entries
/// of the directory were modified at the same instant, each listed entry is
/// newer than the next.
pub proof fn lemma_listing_descending(files: Seq<FileView>, num_files: nat, show_hidden: bool)
    ensures
        descending(listing(files, num_files, show_hidden)),
        distinct_times(files) ==> strictly_descending(listing(files, num_files, show_hidden)),
{
    lemma_newest_first_descending(files);
    lemma_filter_keeps_order(newest_first(files), listed(show_hidden));
    let shown = candidates(files, show_hidden);
    let list = listing(files, num_files, show_hidden);
    assert forall|i: int, j: int| 0 <= i < j < list.len() implies (#[trigger] list[i])
        == shown[i] && (#[trigger] list[j]) == shown[j] by {}
}

/// The listing never holds more entries than were asked for, and none where
/// none was asked for.
pub proof fn lemma_listing_length(files: Seq<FileView>, num_files: nat, show_hidden: bool)
    ensures
        listing(files, num_files, show_hidden).len() <= num_files,
        listing(files, num_files, show_hidden).len() <= files.len(),
        num_files == 0 ==> listing(files, num_files, show_hidden) == Seq::<FileView>::empty(),
{
    newest_first(files).lemma_filter_len(listed(show_hidden));
    lemma_newest_first_permutes(files);
    if num_files == 0 {
        assert(listing(files, num_files, show_hidden) =~= Seq::<FileView>::empty());
    }
}

/// Every entry of the listing is an entry of the directory that is shown; so
/// without `show_hidden` no listed name begins with a dot.
pub proof fn lemma_listing_holds_only_listed(
    files: Seq<FileView>,
    num_files: nat,
    show_hidden: bool,
)
    ensures
        forall|i: int|
            0 <= i < listing(files, num_files, show_hidden).len() ==> {
                let file = #[trigger] listing(files, num_files, show_hidden)[i];
                &&& files.contains(file)
                &&& is_listed(file, show_hidden)
                &&& !show_hidden ==> !is_dot_name(file.name)
            },
{
    let sorted = newest_first(files);
    let shown = candidates(files, show_hidden);
    let list = listing(files, num_files, show_hidden);
    lemma_newest_first_permutes(files);
    assert forall|i: int| 0 <= i < list.len() implies {
        let file = #[trigger] list[i];
        &&& files.contains(file)
        &&& is_listed(file, show_hidden)
        &&& !show_hidden ==> !is_dot_name(file.name)
    } by {
        assert(list[i] == shown[i]);
        sorted.lemma_filter_pred(listed(show_hidden), i);
        assert(shown.contains(shown[i]));
        sorted.lemma_filter_contains_rev(listed(show_hidden), shown[i]);
    }
}

/// Where at least as many entries are asked for as are shown, the listing
/// holds every shown entry of the directory.
pub proof fn lemma_listing_holds_all_when_count_suffices(
    files: Seq<FileView>,
    num_files: nat,
    show_hidden: bool,
)
    requires
        num_files >= candidates(files, show_hidden).len(),
    ensures
        listing(files, num_files, show_hidden) == candidates(files, show_hidden),
        forall|k: int|
            0 <= k < files.len() && is_listed(#[trigger] files[k], show_hidden) ==> listing(
                files,
                num_files,
                show_hidden,
            ).contains(files[k]),
{
    let sorted = newest_first(files);
    lemma_newest_first_permutes(files);
    assert forall|k: int|
        0 <= k < files.len() && is_listed(#[trigger] files[k], show_hidden) implies listing(
        files,
        num_files,
        show_hidden,
    ).contains(files[k]) by {
        assert(files.contains(files[k]));
        assert(sorted.contains(files[k]));
        let m = choose|m: int| 0 <= m < sorted.len() && sorted[m] == files[k];
        sorted.lemma_filter_contains(listed(show_hidden), m);
    }
}

/// Whether `file` is among the entries shown.
pub fn is_shown(file: &File, show_hidden: bool) -> (shown: bool)
    ensures
        shown == is_listed(file@, show_hidden),
{
    if show_hidden {
        return true;
    }
    let allowed = match file.file_type {
        FileType::File => true,
        FileType::Directory => true,
        _ => false,
    };
    allowed && !starts_with_dot(file.name.as_str())
}

/// Lists a directory that holds `file_info`: orders the entries from the newest
/// to the oldest, leaves out those that are not shown, and keeps the first
/// `num_files` of the rest.
pub fn list_dir(file_info: Vec<File>, num_files: usize, show_hidden: bool) -> (shown: Vec<File>)
    ensures
        views(shown@) == listing(views(file_info@), num_files as nat, show_hidden),
        shown@.len() <= num_files,
        shown@.len() <= file_info@.len(),
        descending(views(shown@)),
        distinct_times(views(file_info@)) ==> strictly_descending(views(shown@)),
        !show_hidden ==> forall|i: int|
            0 <= i < shown@.len() ==> !is_dot_name((#[trigger] shown@[i]).name@),
{
    let ghost files = views(file_info@);
    let sorted = sort_newest_first(file_info);
    let ghost order = views(sorted@);
    let ghost whole = sorted@;
    let ghost keep = listed(show_hidden);
    let mut rest = reversed(sorted);
    let mut shown: Vec<File> = Vec::new();
    let ghost mut seen: int = 0;
    proof {
        assert(whole.skip(0) =~= whole);
        assert(order.take(0) =~= Seq::<FileView>::empty());
        reveal(Seq::filter);
        assert(order.take(0).filter(keep) =~= views(shown@));
    }
    while shown.len() < num_files && rest.len() > 0
        invariant
            0 <= seen <= whole.len(),
            order == views(whole),
            keep == listed(show_hidden),
            rest@ == whole.skip(seen).reverse(),
            views(shown@) == order.take(seen).filter(keep),
            shown@.len() <= num_files,
        decreases rest.len(),
    {
        let ghost before = views(shown@);
        assert(rest@.last() == whole[seen]);
        let file = rest.pop().unwrap();
        proof {
            assert(rest@ =~= whole.skip(seen + 1).reverse());
            assert(order.take(seen + 1) =~= order.take(seen).push(file@));
            order.take(seen).lemma_filter_push(file@, keep);
        }
        if is_shown(&file, show_hidden) {
            shown.push(file);
            assert(views(shown@) =~= before.push(file@));
        }
        proof {
            seen = seen + 1;
        }
    }
    proof {
        let all = candidates(files, show_hidden);
        assert(order == newest_first(files));
        assert(order =~= order.take(seen) + order.skip(seen));
        Seq::filter_distributes_over_add(order.take(seen), order.skip(seen), keep);
        if rest.len() == 0 {
            assert(order.skip(seen) =~= Seq::<FileView>::empty());
            assert(order.skip(seen).filter(keep) =~= Seq::<FileView>::empty());
            assert(all =~= views(shown@));
        } else {
            assert(all.take(num_files as int) =~= views(shown@));
        }
        assert(views(shown@) =~= listing(files, num_files as nat, show_hidden));
        lemma_listing_descending(files, num_files as nat, show_hidden);
        lemma_listing_length(files, num_files as nat, show_hidden);
        lemma_listing_holds_only_listed(files, num_files as nat, show_hidden);
        assert(files.len() == file_info@.len());
        if !show_hidden {
            assert forall|i: int| 0 <= i < shown@.len() implies !is_dot_name(
                (#[trigger] shown@[i]).name@,
            ) by {
                assert(views(shown@)[i] == shown@[i]@);
            }
        }
    }
    shown
}

} // verus!
