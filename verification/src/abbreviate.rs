//! Shortening of names that are too long for their column, counted in grapheme
//! clusters rather than in bytes or code points.

use unicode_segmentation::UnicodeSegmentation;
use vstd::prelude::*;
use vstd::seq_lib::lemma_flatten_concat;

verus! {

/// The extended grapheme clusters of `text`, in order, as the segmentation of
/// `unicode_segmentation` yields them.
pub uninterp spec fn grapheme_clusters(text: Seq<char>) -> Seq<Seq<char>>;

/// The text of each string of `parts`.
pub open spec fn texts(parts: Seq<String>) -> Seq<Seq<char>> {
    parts.map_values(|part: String| part@)
}

/// What stands between the two kept ends of a shortened name.
pub open spec fn separator() -> Seq<char> {
    seq!['.', '.', '.']
}

/// How many clusters are kept at each end of a name shortened for `max_length`.
pub open spec fn kept_at_each_end(max_length: nat) -> nat {
    max_length / 2
}

/// The clusters of the name shown for a name that segments into `clusters`:
/// all of them when there are at most `max_length`, else the first and the last
/// `max_length / 2` with one cluster for each character of the separator
/// between them.
pub open spec fn shown_clusters(clusters: Seq<Seq<char>>, max_length: nat) -> Seq<Seq<char>> {
    if clusters.len() <= max_length {
        clusters
    } else {
        let half = kept_at_each_end(max_length) as int;
        clusters.take(half) + seq![seq!['.'], seq!['.'], seq!['.']] + clusters.skip(
            clusters.len() - half,
        )
    }
}

/// The name shown for `name`, which segments into `clusters`, in a column of
/// `max_length` clusters: `name` itself when it has at most `max_length`
/// clusters, else its first and last `max_length / 2` clusters around the
/// separator.
pub open spec fn abbreviated(name: Seq<char>, clusters: Seq<Seq<char>>, max_length: nat) -> Seq<
    char,
> {
    if clusters.len() <= max_length {
        name
    } else {
        let half = kept_at_each_end(max_length) as int;
        clusters.take(half).flatten() + separator() + clusters.skip(
            clusters.len() - half,
        ).flatten()
    }
}

/// Calls `UnicodeSegmentation::graphemes` of `unicode_segmentation` with
/// extended clusters and copies each cluster into a string of its own. Trusted:
/// the result is the segmentation named `grapheme_clusters`, and, as the
/// iterator hands out consecutive slices from the first byte to the last, each
/// ending at the next boundary after its start, no cluster is empty and the
/// clusters joined give the text back.
#[verifier::external_body]
fn graphemes(text: &str) -> (clusters: Vec<String>)
    ensures
        texts(clusters@) == grapheme_clusters(text@),
        texts(clusters@).flatten() == text@,
        forall|i: int| 0 <= i < clusters@.len() ==> (#[trigger] clusters@[i])@.len() > 0,
{
    text.graphemes(true).map(String::from).collect()
}

/// Whether none of `parts` is empty.
pub open spec fn none_empty(parts: Seq<Seq<char>>) -> bool {
    forall|i: int| 0 <= i < parts.len() ==> (#[trigger] parts[i]).len() > 0
}

/// Parts of which none is empty are no more than the characters they hold.
pub proof fn lemma_no_more_parts_than_characters(parts: Seq<Seq<char>>)
    requires
        none_empty(parts),
    ensures
        parts.len() <= parts.flatten().len(),
    decreases parts.len(),
{
    if parts.len() > 0 {
        let rest = parts.drop_first();
        assert forall|i: int| 0 <= i < rest.len() implies (#[trigger] rest[i]).len() > 0 by {
            assert(rest[i] == parts[i + 1]);
        }
        lemma_no_more_parts_than_characters(rest);
        assert(parts[0].len() > 0);
    }
}

/// Cuts `text` into its extended grapheme clusters. No cluster is empty, and
/// the clusters joined are the text; so there are no more clusters than
/// characters.
pub fn split_graphemes(text: &str) -> (clusters: Vec<String>)
    ensures
        texts(clusters@) == grapheme_clusters(text@),
        grapheme_clusters(text@).flatten() == text@,
        none_empty(grapheme_clusters(text@)),
        grapheme_clusters(text@).len() <= text@.len(),
{
    let clusters = graphemes(text);
    proof {
        assert forall|i: int| 0 <= i < texts(clusters@).len() implies (#[trigger] texts(
            clusters@,
        )[i]).len() > 0 by {
            assert(clusters@[i]@.len() > 0);
        }
        lemma_no_more_parts_than_characters(texts(clusters@));
    }
    clusters
}

/// Whether `shown` is `name`, or a front part of `name`, the separator, and a
/// back part of `name` that begins no earlier than the front part ends.
pub open spec fn is_cut_of(shown: Seq<char>, name: Seq<char>) -> bool {
    shown == name || exists|front: int, back: int|
        0 <= front <= back <= name.len() && shown == name.take(front) + separator() + name.skip(
            back,
        )
}

/// Appends the strings `parts[from..to]` to `out`.
fn append_range(out: &mut String, parts: &Vec<String>, from: usize, to: usize)
    requires
        from <= to <= parts.len(),
    ensures
        final(out)@ == old(out)@ + texts(parts@).subrange(from as int, to as int).flatten(),
{
    let mut i = from;
    assert(texts(parts@).subrange(from as int, from as int) =~= Seq::<Seq<char>>::empty());
    while i < to
        invariant
            from <= i <= to <= parts.len(),
            out@ == old(out)@ + texts(parts@).subrange(from as int, i as int).flatten(),
        decreases to - i,
    {
        proof {
            let done = texts(parts@).subrange(from as int, i as int);
            assert(texts(parts@).subrange(from as int, i + 1) =~= done.push(parts@[i as int]@));
            done.lemma_flatten_push(parts@[i as int]@);
        }
        out.append(parts[i].as_str());
        i += 1;
    }
}

/// Shortens `filename`, already cut into `clusters`, for a column of `max_length`
/// clusters.
pub fn abbreviate_clusters(filename: &str, clusters: &Vec<String>, max_length: usize) -> (shown:
    String)
    ensures
        shown@ == abbreviated(filename@, texts(clusters@), max_length as nat),
{
    let count = clusters.len();
    if count > max_length {
        let half_length = max_length / 2;
        let mut shown = String::new();
        append_range(&mut shown, clusters, 0, half_length);
        shown.append("...");
        append_range(&mut shown, clusters, count - half_length, count);
        proof {
            reveal_strlit("...");
            assert("..."@ =~= separator());
            assert(texts(clusters@).subrange(0, half_length as int) =~= texts(clusters@).take(
                half_length as int,
            ));
            assert(texts(clusters@).subrange(count - half_length, count as int) =~= texts(
                clusters@,
            ).skip(count - half_length));
        }
        shown
    } else {
        filename.to_owned()
    }
}

/// Shortens `filename` for a column of `max_length` grapheme clusters. A name of
/// at most `max_length` clusters comes back unchanged; of a longer one the first
/// and the last `max_length / 2` clusters are kept, joined by `...`.
pub fn abbreviate_filename(filename: &str, max_length: usize) -> (shown: String)
    ensures
        shown@ == abbreviated(filename@, grapheme_clusters(filename@), max_length as nat),
        grapheme_clusters(filename@).len() <= max_length ==> shown@ == filename@,
        filename@.len() <= max_length ==> shown@ == filename@,
        grapheme_clusters(filename@).flatten() == filename@,
        none_empty(grapheme_clusters(filename@)),
        grapheme_clusters(filename@).len() <= filename@.len(),
        is_cut_of(shown@, filename@),
        shown@.len() <= filename@.len() + 3,
        forall|c: char| shown@.contains(c) ==> filename@.contains(c) || c == '.',
{
    let clusters = split_graphemes(filename);
    proof {
        lemma_abbreviated_chars(filename@, texts(clusters@), max_length as nat);
        lemma_abbreviated_is_cut(filename@, texts(clusters@), max_length as nat);
    }
    abbreviate_clusters(filename, &clusters, max_length)
}

/// The shown name is the name, or a front part and a back part of it around
/// the separator, for a name that is its clusters joined; so it is at most the
/// three characters of the separator longer than the name.
pub proof fn lemma_abbreviated_is_cut(name: Seq<char>, clusters: Seq<Seq<char>>, max_length: nat)
    requires
        clusters.flatten() == name,
    ensures
        is_cut_of(abbreviated(name, clusters, max_length), name),
        abbreviated(name, clusters, max_length).len() <= name.len() + 3,
{
    if clusters.len() > max_length {
        let half = kept_at_each_end(max_length) as int;
        let count = clusters.len() as int;
        let head = clusters.take(half);
        let middle = clusters.subrange(half, count - half);
        let tail = clusters.skip(count - half);
        assert(clusters =~= head + middle + tail);
        lemma_flatten_concat(head + middle, tail);
        lemma_flatten_concat(head, middle);
        let front = head.flatten().len() as int;
        let back = front + middle.flatten().len();
        assert(name.take(front) =~= head.flatten());
        assert(name.skip(back) =~= tail.flatten());
        assert(abbreviated(name, clusters, max_length) == name.take(front) + separator()
            + name.skip(back));
    }
}

/// A character stands in the joined parts exactly if it stands in one of them.
pub proof fn lemma_flatten_contains(parts: Seq<Seq<char>>, c: char)
    ensures
        parts.flatten().contains(c) <==> exists|i: int|
            0 <= i < parts.len() && (#[trigger] parts[i]).contains(c),
    decreases parts.len(),
{
    if parts.len() > 0 {
        let rest = parts.drop_first();
        lemma_flatten_contains(rest, c);
        if parts.flatten().contains(c) {
            let k = choose|k: int| 0 <= k < parts.flatten().len() && parts.flatten()[k] == c;
            if k < parts.first().len() {
                assert(parts.first()[k] == c);
                assert(parts[0].contains(c));
            } else {
                assert(rest.flatten()[k - parts.first().len()] == c);
                let i = choose|i: int| 0 <= i < rest.len() && (#[trigger] rest[i]).contains(c);
                assert(parts[i + 1].contains(c));
            }
        }
        if exists|i: int| 0 <= i < parts.len() && (#[trigger] parts[i]).contains(c) {
            let i = choose|i: int| 0 <= i < parts.len() && (#[trigger] parts[i]).contains(c);
            if i == 0 {
                let k = choose|k: int| 0 <= k < parts[0].len() && parts[0][k] == c;
                assert(parts.flatten()[k] == c);
            } else {
                assert(rest[i - 1].contains(c));
                let k = choose|k: int| 0 <= k < rest.flatten().len() && rest.flatten()[k] == c;
                assert(parts.flatten()[parts.first().len() + k] == c);
            }
        }
    }
}

/// Shortening adds no character but the dot: every character of the shown name
/// is one of the name, which is its clusters joined, or a dot.
pub proof fn lemma_abbreviated_chars(name: Seq<char>, clusters: Seq<Seq<char>>, max_length: nat)
    requires
        clusters.flatten() == name,
    ensures
        forall|c: char| #[trigger]
            abbreviated(name, clusters, max_length).contains(c) ==> name.contains(c) || c == '.',
{
    let shown = abbreviated(name, clusters, max_length);
    assert forall|c: char| #[trigger] shown.contains(c) implies name.contains(c) || c == '.' by {
        if clusters.len() > max_length {
            let half = kept_at_each_end(max_length) as int;
            let head = clusters.take(half);
            let tail = clusters.skip(clusters.len() - half);
            let k = choose|k: int| 0 <= k < shown.len() && shown[k] == c;
            lemma_flatten_contains(clusters, c);
            if k < head.flatten().len() {
                assert(head.flatten()[k] == c);
                lemma_flatten_contains(head, c);
                let i = choose|i: int| 0 <= i < head.len() && (#[trigger] head[i]).contains(c);
                assert(clusters[i].contains(c));
            } else if k < head.flatten().len() + 3 {
                assert(separator()[k - head.flatten().len()] == c);
            } else {
                assert(tail.flatten()[k - head.flatten().len() - 3] == c);
                lemma_flatten_contains(tail, c);
                let i = choose|i: int| 0 <= i < tail.len() && (#[trigger] tail[i]).contains(c);
                assert(clusters[clusters.len() - half + i].contains(c));
            }
        }
    }
}

/// A name that fits its column is shown as it is.
pub proof fn lemma_short_name_unchanged(name: Seq<char>, clusters: Seq<Seq<char>>, max_length: nat)
    requires
        clusters.len() <= max_length,
    ensures
        abbreviated(name, clusters, max_length) == name,
{
}

/// Shortening a shortened name again for the same column gives the same name,
/// where the shortened name segments into the clusters that were kept and one
/// cluster for each character of the separator.
pub proof fn lemma_abbreviate_idempotent(name: Seq<char>, clusters: Seq<Seq<char>>, max_length: nat)
    ensures
        abbreviated(
            abbreviated(name, clusters, max_length),
            shown_clusters(clusters, max_length),
            max_length,
        ) == abbreviated(name, clusters, max_length),
{
    if clusters.len() > max_length {
        let half = kept_at_each_end(max_length) as int;
        let once = shown_clusters(clusters, max_length);
        assert(once.len() == 2 * half + 3);
        assert(once.take(half) =~= clusters.take(half));
        assert(once.skip(once.len() - half) =~= clusters.skip(clusters.len() - half));
    }
}

/// Shortening a name twice for the same column is shortening it once, where
/// the segmentation finds in the shortened name the clusters that were kept and
/// one cluster for each character of the separator.
pub proof fn lemma_abbreviate_filename_idempotent(name: Seq<char>, max_length: nat)
    requires
        grapheme_clusters(abbreviated(name, grapheme_clusters(name), max_length))
            == shown_clusters(grapheme_clusters(name), max_length),
    ensures
        abbreviated(
            abbreviated(name, grapheme_clusters(name), max_length),
            grapheme_clusters(abbreviated(name, grapheme_clusters(name), max_length)),
            max_length,
        ) == abbreviated(name, grapheme_clusters(name), max_length),
{
    lemma_abbreviate_idempotent(name, grapheme_clusters(name), max_length);
}

/// Whether the strings `found[from..from + count]` are the strings
/// `wanted[at..at + count]`.
fn same_run(found: &Vec<String>, from: usize, wanted: &Vec<String>, at: usize, count: usize) -> (same:
    bool)
    requires
        from + count <= found.len(),
        at + count <= wanted.len(),
    ensures
        same == (texts(found@).subrange(from as int, from + count) == texts(wanted@).subrange(
            at as int,
            at + count,
        )),
{
    let ghost left = texts(found@).subrange(from as int, from + count);
    let ghost right = texts(wanted@).subrange(at as int, at + count);
    let mut i: usize = 0;
    while i < count
        invariant
            i <= count,
            from + count <= found.len(),
            at + count <= wanted.len(),
            left == texts(found@).subrange(from as int, from + count),
            right == texts(wanted@).subrange(at as int, at + count),
            forall|j: int| 0 <= j < i ==> #[trigger] left[j] == right[j],
        decreases count - i,
    {
        assert(left[i as int] == found@[from + i]@);
        assert(right[i as int] == wanted@[at + i]@);
        if found[from + i] != wanted[at + i] {
            return false;
        }
        i += 1;
    }
    assert(left =~= right);
    true
}

/// Whether each of the strings `found[from..from + 3]` is one dot.
fn three_dots(found: &Vec<String>, from: usize) -> (dots: bool)
    requires
        from + 3 <= found.len(),
    ensures
        dots == (texts(found@).subrange(from as int, from + 3) == seq![
            seq!['.'],
            seq!['.'],
            seq!['.'],
        ]),
{
    let ghost run = texts(found@).subrange(from as int, from + 3);
    let ghost wanted = seq![seq!['.'], seq!['.'], seq!['.']];
    let mut i: usize = 0;
    while i < 3
        invariant
            i <= 3,
            from + 3 <= found.len(),
            run == texts(found@).subrange(from as int, from + 3),
            wanted == seq![seq!['.'], seq!['.'], seq!['.']],
            forall|j: int| 0 <= j < i ==> #[trigger] run[j] == wanted[j],
        decreases 3 - i,
    {
        assert(run[i as int] == found@[from + i]@);
        assert(wanted[i as int] == seq!['.']);
        let part = found[from + i].as_str();
        let dot = part.unicode_len() == 1 && part.get_char(0) == '.';
        if !dot {
            assert(run[i as int] != wanted[i as int]);
            return false;
        }
        assert(run[i as int] =~= wanted[i as int]);
        i += 1;
    }
    assert(run =~= wanted);
    true
}

/// Whether `found` holds the clusters shown for a name that segments into
/// `clusters`, in a column of `max_length`.
fn are_shown_clusters(found: &Vec<String>, clusters: &Vec<String>, max_length: usize) -> (same:
    bool)
    ensures
        same == (texts(found@) == shown_clusters(texts(clusters@), max_length as nat)),
{
    let count = clusters.len();
    let ghost wanted = shown_clusters(texts(clusters@), max_length as nat);
    if count <= max_length {
        if found.len() != count {
            return false;
        }
        let same = same_run(found, 0, clusters, 0, count);
        proof {
            assert(texts(found@).subrange(0, count as int) =~= texts(found@));
            assert(texts(clusters@).subrange(0, count as int) =~= texts(clusters@));
        }
        same
    } else {
        let half = max_length / 2;
        assert(wanted.len() == half + 3 + half);
        if found.len() < 3 || found.len() - 3 != half + half {
            assert(texts(found@).len() != wanted.len());
            return false;
        }
        let head = same_run(found, 0, clusters, 0, half);
        let dots = three_dots(found, half);
        let tail = same_run(found, half + 3, clusters, count - half, half);
        proof {
            let all = texts(found@);
            let from = texts(clusters@);
            assert(wanted.subrange(0, half as int) =~= from.subrange(0, half as int));
            assert(wanted.subrange(half as int, half + 3) =~= seq![
                seq!['.'],
                seq!['.'],
                seq!['.'],
            ]);
            assert(wanted.subrange(half + 3, half + 3 + half) =~= from.subrange(
                count - half,
                count as int,
            ));
            if head && dots && tail {
                assert(all =~= all.subrange(0, half as int) + all.subrange(half as int, half + 3)
                    + all.subrange(half + 3, half + 3 + half));
                assert(wanted =~= wanted.subrange(0, half as int) + wanted.subrange(
                    half as int,
                    half + 3,
                ) + wanted.subrange(half + 3, half + 3 + half));
            }
        }
        head && dots && tail
    }
}

/// Shortens `filename` as `abbreviate_filename` does, and says whether the
/// shortened name settles: whether it segments into the clusters that were
/// kept and one cluster for each dot of the separator. Where it does,
/// shortening it again for the same column changes nothing.
pub fn abbreviate_filename_settled(filename: &str, max_length: usize) -> (shown: (String, bool))
    ensures
        shown.0@ == abbreviated(filename@, grapheme_clusters(filename@), max_length as nat),
        shown.1 == (grapheme_clusters(shown.0@) == shown_clusters(
            grapheme_clusters(filename@),
            max_length as nat,
        )),
        shown.1 ==> abbreviated(shown.0@, grapheme_clusters(shown.0@), max_length as nat)
            == shown.0@,
{
    let clusters = split_graphemes(filename);
    let name = abbreviate_clusters(filename, &clusters, max_length);
    let found = split_graphemes(name.as_str());
    let settled = are_shown_clusters(&found, &clusters, max_length);
    proof {
        if settled {
            lemma_abbreviate_filename_idempotent(filename@, max_length as nat);
        }
    }
    (name, settled)
}

} // verus!
