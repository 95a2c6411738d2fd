use vstd::prelude::*;
use vstd::string::StrSliceExecFns;
use vstd::string::StringExecFns;

use crate::date::Date;
use crate::date::today_date;
use crate::digits::spec_dec_rep;
use crate::digits::u64_to_string;
use crate::format::FormatParams;
use crate::task::Task;

verus! {

/// The categories of a task sequence in first-seen order, deduplicated.
pub open spec fn spec_first_seen_cats(ts: Seq<Task>) -> Seq<Seq<char>>
    decreases ts.len(),
{
    if ts.len() == 0 {
        Seq::empty()
    } else {
        let prev = spec_first_seen_cats(ts.drop_last());
        if prev.contains(ts.last().category@) {
            prev
        } else {
            prev.push(ts.last().category@)
        }
    }
}

/// Every task's category appears among the distinct categories.
pub proof fn lemma_first_seen_cats_complete(ts: Seq<Task>, i: int)
    requires
        0 <= i < ts.len(),
    ensures
        spec_first_seen_cats(ts).contains(ts[i].category@),
    decreases ts.len(),
{
    let prev = spec_first_seen_cats(ts.drop_last());
    let r = spec_first_seen_cats(ts);
    if i == ts.len() - 1 {
        if !prev.contains(ts.last().category@) {
            assert(r[r.len() - 1] == ts[i].category@);
        }
    } else {
        lemma_first_seen_cats_complete(ts.drop_last(), i);
        assert(ts.drop_last()[i] == ts[i]);
        if !prev.contains(ts.last().category@) {
            let w = choose|w: int| 0 <= w < prev.len() && prev[w] == ts[i].category@;
            assert(r[w] == ts[i].category@);
        }
    }
}

/// The distinct categories hold no repeats.
pub proof fn lemma_first_seen_cats_distinct(ts: Seq<Task>, a: int, b: int)
    requires
        0 <= a < b < spec_first_seen_cats(ts).len(),
    ensures
        spec_first_seen_cats(ts)[a] != spec_first_seen_cats(ts)[b],
    decreases ts.len(),
{
    let prev = spec_first_seen_cats(ts.drop_last());
    let r = spec_first_seen_cats(ts);
    if prev.contains(ts.last().category@) {
        lemma_first_seen_cats_distinct(ts.drop_last(), a, b);
    } else {
        if b < prev.len() {
            lemma_first_seen_cats_distinct(ts.drop_last(), a, b);
        } else {
            assert(r[b] == ts.last().category@);
            assert(r[a] == prev[a]);
            assert(prev.contains(prev[a]));
        }
    }
}

/// The numbered task list: one line per task in storage order.
pub open spec fn spec_tasks_list_prefix(ts: Seq<Task>, today: Date, n: int) -> Seq<char>
    decreases n,
{
    if n <= 0 {
        Seq::empty()
    } else {
        spec_tasks_list_prefix(ts, today, n - 1) + spec_dec_rep((n - 1) as nat) + "("@ + ts[n
            - 1].category@ + ") "@ + ts[n - 1].spec_formatted(true, today) + "\n"@
    }
}

pub open spec fn spec_tasks_list(ts: Seq<Task>, today: Date) -> Seq<char> {
    spec_tasks_list_prefix(ts, today, ts.len() as int)
}

/// Lexicographic order on character sequences, by code point.
pub open spec fn spec_lex_le(a: Seq<char>, b: Seq<char>) -> bool
    decreases a.len(),
{
    if a.len() == 0 {
        true
    } else if b.len() == 0 {
        false
    } else if (a[0] as u32) < (b[0] as u32) {
        true
    } else if (a[0] as u32) > (b[0] as u32) {
        false
    } else {
        spec_lex_le(a.skip(1), b.skip(1))
    }
}

/// Insertion into a lexicographically sorted sequence of category names,
/// before the first entry that is not below the new name.
pub open spec fn spec_insert_lex(cs: Seq<Seq<char>>, c: Seq<char>) -> Seq<Seq<char>>
    decreases cs.len(),
{
    if cs.len() == 0 {
        seq![c]
    } else if spec_lex_le(c, cs[0]) {
        seq![c] + cs
    } else {
        seq![cs[0]] + spec_insert_lex(cs.skip(1), c)
    }
}

/// Insertion sort of category names into ascending lexicographic order.
pub open spec fn spec_sort_lex(cs: Seq<Seq<char>>) -> Seq<Seq<char>>
    decreases cs.len(),
{
    if cs.len() == 0 {
        Seq::empty()
    } else {
        spec_insert_lex(spec_sort_lex(cs.drop_last()), cs.last())
    }
}

/// Whether a sequence of category names is in ascending lexicographic
/// order.
pub open spec fn spec_lex_sorted(cs: Seq<Seq<char>>) -> bool {
    forall|a: int, b: int|
        0 <= a < b < cs.len() ==> spec_lex_le(#[trigger] cs[a], #[trigger] cs[b])
}

proof fn lemma_lex_le_total(a: Seq<char>, b: Seq<char>)
    ensures
        spec_lex_le(a, b) || spec_lex_le(b, a),
    decreases a.len(),
{
    if a.len() == 0 {
    } else if b.len() == 0 {
    } else if (a[0] as u32) == (b[0] as u32) {
        lemma_lex_le_total(a.skip(1), b.skip(1));
    }
}

proof fn lemma_lex_le_trans(a: Seq<char>, b: Seq<char>, c: Seq<char>)
    requires
        spec_lex_le(a, b),
        spec_lex_le(b, c),
    ensures
        spec_lex_le(a, c),
    decreases a.len(),
{
    if a.len() == 0 {
    } else {
        assert(b.len() > 0);
        assert(c.len() > 0);
        if (a[0] as u32) == (b[0] as u32) && (b[0] as u32) == (c[0] as u32) {
            lemma_lex_le_trans(a.skip(1), b.skip(1), c.skip(1));
        }
    }
}

proof fn lemma_insert_lex_elems(cs: Seq<Seq<char>>, c: Seq<char>, k: int)
    requires
        0 <= k < spec_insert_lex(cs, c).len(),
    ensures
        spec_insert_lex(cs, c)[k] == c || cs.contains(spec_insert_lex(cs, c)[k]),
    decreases cs.len(),
{
    let r = spec_insert_lex(cs, c);
    if cs.len() == 0 {
    } else if spec_lex_le(c, cs[0]) {
        if k > 0 {
            assert(r[k] == cs[k - 1]);
        }
    } else {
        if k > 0 {
            lemma_insert_lex_elems(cs.skip(1), c, k - 1);
            if cs.skip(1).contains(r[k]) {
                let w = choose|w: int| 0 <= w < cs.skip(1).len() && cs.skip(1)[w] == r[k];
                assert(cs[w + 1] == r[k]);
            }
        }
    }
}

proof fn lemma_insert_lex_sorted(cs: Seq<Seq<char>>, c: Seq<char>)
    requires
        spec_lex_sorted(cs),
    ensures
        spec_lex_sorted(spec_insert_lex(cs, c)),
    decreases cs.len(),
{
    let r = spec_insert_lex(cs, c);
    if cs.len() == 0 {
    } else if spec_lex_le(c, cs[0]) {
        assert forall|a: int, b: int| 0 <= a < b < r.len() implies spec_lex_le(r[a], r[b]) by {
            if a == 0 {
                assert(r[b] == cs[b - 1]);
                if b - 1 > 0 {
                    assert(spec_lex_le(cs[0], cs[b - 1]));
                    lemma_lex_le_trans(c, cs[0], cs[b - 1]);
                }
            } else {
                assert(r[a] == cs[a - 1] && r[b] == cs[b - 1]);
                assert(spec_lex_le(cs[a - 1], cs[b - 1]));
            }
        }
    } else {
        lemma_lex_le_total(c, cs[0]);
        assert(spec_lex_le(cs[0], c));
        assert forall|a: int, b: int| 0 <= a < b < cs.skip(1).len() implies spec_lex_le(
            cs.skip(1)[a],
            cs.skip(1)[b],
        ) by {
            assert(cs.skip(1)[a] == cs[a + 1] && cs.skip(1)[b] == cs[b + 1]);
        }
        lemma_insert_lex_sorted(cs.skip(1), c);
        let rr = spec_insert_lex(cs.skip(1), c);
        assert forall|a: int, b: int| 0 <= a < b < r.len() implies spec_lex_le(r[a], r[b]) by {
            if a == 0 {
                assert(r[b] == rr[b - 1]);
                lemma_insert_lex_elems(cs.skip(1), c, b - 1);
                if rr[b - 1] == c {
                    assert(spec_lex_le(cs[0], c));
                } else {
                    let w = choose|w: int| 0 <= w < cs.skip(1).len() && cs.skip(1)[w] == rr[b - 1];
                    assert(cs[w + 1] == rr[b - 1]);
                    assert(spec_lex_le(cs[0], cs[w + 1]));
                }
            } else {
                assert(r[a] == rr[a - 1] && r[b] == rr[b - 1]);
                assert(spec_lex_le(rr[a - 1], rr[b - 1]));
            }
        }
    }
}

proof fn lemma_insert_lex_multiset(cs: Seq<Seq<char>>, c: Seq<char>)
    ensures
        spec_insert_lex(cs, c).to_multiset() =~= cs.to_multiset().insert(c),
    decreases cs.len(),
{
    broadcast use vstd::seq_lib::group_to_multiset_ensures;
    broadcast use vstd::multiset::group_multiset_axioms;

    if cs.len() == 0 {
        assert(seq![c] =~= Seq::<Seq<char>>::empty().push(c));
    } else if spec_lex_le(c, cs[0]) {
        vstd::seq_lib::lemma_multiset_commutative(seq![c], cs);
        assert(seq![c] =~= Seq::<Seq<char>>::empty().push(c));
    } else {
        lemma_insert_lex_multiset(cs.skip(1), c);
        vstd::seq_lib::lemma_multiset_commutative(seq![cs[0]], spec_insert_lex(cs.skip(1), c));
        assert(cs =~= seq![cs[0]] + cs.skip(1));
        vstd::seq_lib::lemma_multiset_commutative(seq![cs[0]], cs.skip(1));
        assert(seq![cs[0]] =~= Seq::<Seq<char>>::empty().push(cs[0]));
    }
}

/// Sorting the distinct categories neither loses nor invents one.
pub proof fn lemma_sort_lex_multiset(cs: Seq<Seq<char>>)
    ensures
        spec_sort_lex(cs).to_multiset() =~= cs.to_multiset(),
    decreases cs.len(),
{
    broadcast use vstd::seq_lib::group_to_multiset_ensures;
    broadcast use vstd::multiset::group_multiset_axioms;

    if cs.len() == 0 {
    } else {
        lemma_sort_lex_multiset(cs.drop_last());
        lemma_insert_lex_multiset(spec_sort_lex(cs.drop_last()), cs.last());
        assert(cs =~= cs.drop_last().push(cs.last()));
    }
}

/// The report lists the distinct categories in ascending lexicographic
/// order.
pub proof fn lemma_sort_lex_sorted(cs: Seq<Seq<char>>)
    ensures
        spec_lex_sorted(spec_sort_lex(cs)),
    decreases cs.len(),
{
    if cs.len() == 0 {
    } else {
        lemma_sort_lex_sorted(cs.drop_last());
        lemma_insert_lex_sorted(spec_sort_lex(cs.drop_last()), cs.last());
    }
}

/// The display order within a category: the task at index `i` comes before
/// the one at index `j` when its remaining days are larger, or equal with
/// the larger index — descending remaining days, ties reversed.
pub open spec fn spec_report_before(ts: Seq<Task>, today: Date, i: usize, j: usize) -> bool {
    let ki = ts[i as int].spec_days_key(today);
    let kj = ts[j as int].spec_days_key(today);
    ki > kj || (ki == kj && i > j)
}

/// Insertion of a task index into a sequence sorted by the display order.
pub open spec fn spec_insert_by_days(ts: Seq<Task>, today: Date, s: Seq<usize>, i: usize) -> Seq<
    usize,
>
    decreases s.len(),
{
    if s.len() == 0 {
        seq![i]
    } else if spec_report_before(ts, today, i, s[0]) {
        seq![i] + s
    } else {
        seq![s[0]] + spec_insert_by_days(ts, today, s.skip(1), i)
    }
}

/// Insertion sort of task indices into the display order.
pub open spec fn spec_sort_by_days(ts: Seq<Task>, today: Date, s: Seq<usize>) -> Seq<usize>
    decreases s.len(),
{
    if s.len() == 0 {
        Seq::empty()
    } else {
        spec_insert_by_days(ts, today, spec_sort_by_days(ts, today, s.drop_last()), s.last())
    }
}

/// Whether a sequence of task indices is in display order: no entry comes
/// before an earlier one.
pub open spec fn spec_days_ordered(ts: Seq<Task>, today: Date, s: Seq<usize>) -> bool {
    forall|a: int, b: int|
        0 <= a < b < s.len() ==> !spec_report_before(ts, today, #[trigger] s[b], #[trigger] s[a])
}

proof fn lemma_insert_by_days_elems(ts: Seq<Task>, today: Date, s: Seq<usize>, i: usize, k: int)
    requires
        0 <= k < spec_insert_by_days(ts, today, s, i).len(),
    ensures
        spec_insert_by_days(ts, today, s, i)[k] == i || s.contains(
            spec_insert_by_days(ts, today, s, i)[k],
        ),
    decreases s.len(),
{
    let r = spec_insert_by_days(ts, today, s, i);
    if s.len() == 0 {
    } else if spec_report_before(ts, today, i, s[0]) {
        if k > 0 {
            assert(r[k] == s[k - 1]);
        }
    } else {
        if k > 0 {
            lemma_insert_by_days_elems(ts, today, s.skip(1), i, k - 1);
            if s.skip(1).contains(r[k]) {
                let w = choose|w: int| 0 <= w < s.skip(1).len() && s.skip(1)[w] == r[k];
                assert(s[w + 1] == r[k]);
            }
        }
    }
}

proof fn lemma_insert_by_days_ordered(ts: Seq<Task>, today: Date, s: Seq<usize>, i: usize)
    requires
        spec_days_ordered(ts, today, s),
    ensures
        spec_days_ordered(ts, today, spec_insert_by_days(ts, today, s, i)),
    decreases s.len(),
{
    let r = spec_insert_by_days(ts, today, s, i);
    if s.len() == 0 {
    } else if spec_report_before(ts, today, i, s[0]) {
        assert forall|a: int, b: int| 0 <= a < b < r.len() implies !spec_report_before(
            ts,
            today,
            r[b],
            r[a],
        ) by {
            if a == 0 {
                assert(r[b] == s[b - 1]);
                if b - 1 > 0 {
                    assert(!spec_report_before(ts, today, s[b - 1], s[0]));
                }
            } else {
                assert(r[a] == s[a - 1] && r[b] == s[b - 1]);
                assert(!spec_report_before(ts, today, s[b - 1], s[a - 1]));
            }
        }
    } else {
        assert forall|a: int, b: int| 0 <= a < b < s.skip(1).len() implies !spec_report_before(
            ts,
            today,
            s.skip(1)[b],
            s.skip(1)[a],
        ) by {
            assert(s.skip(1)[a] == s[a + 1] && s.skip(1)[b] == s[b + 1]);
        }
        lemma_insert_by_days_ordered(ts, today, s.skip(1), i);
        let rr = spec_insert_by_days(ts, today, s.skip(1), i);
        assert forall|a: int, b: int| 0 <= a < b < r.len() implies !spec_report_before(
            ts,
            today,
            r[b],
            r[a],
        ) by {
            if a == 0 {
                assert(r[b] == rr[b - 1]);
                lemma_insert_by_days_elems(ts, today, s.skip(1), i, b - 1);
                if rr[b - 1] == i {
                    assert(!spec_report_before(ts, today, i, s[0]));
                } else {
                    let w = choose|w: int| 0 <= w < s.skip(1).len() && s.skip(1)[w] == rr[b - 1];
                    assert(s[w + 1] == rr[b - 1]);
                    assert(!spec_report_before(ts, today, s[w + 1], s[0]));
                }
            } else {
                assert(r[a] == rr[a - 1] && r[b] == rr[b - 1]);
                assert(!spec_report_before(ts, today, rr[b - 1], rr[a - 1]));
            }
        }
    }
}

proof fn lemma_insert_by_days_multiset(ts: Seq<Task>, today: Date, s: Seq<usize>, i: usize)
    ensures
        spec_insert_by_days(ts, today, s, i).to_multiset() =~= s.to_multiset().insert(i),
    decreases s.len(),
{
    broadcast use vstd::seq_lib::group_to_multiset_ensures;
    broadcast use vstd::multiset::group_multiset_axioms;

    if s.len() == 0 {
        assert(seq![i] =~= Seq::<usize>::empty().push(i));
    } else if spec_report_before(ts, today, i, s[0]) {
        vstd::seq_lib::lemma_multiset_commutative(seq![i], s);
        assert(seq![i] =~= Seq::<usize>::empty().push(i));
    } else {
        lemma_insert_by_days_multiset(ts, today, s.skip(1), i);
        vstd::seq_lib::lemma_multiset_commutative(
            seq![s[0]],
            spec_insert_by_days(ts, today, s.skip(1), i),
        );
        assert(s =~= seq![s[0]] + s.skip(1));
        vstd::seq_lib::lemma_multiset_commutative(seq![s[0]], s.skip(1));
        assert(seq![s[0]] =~= Seq::<usize>::empty().push(s[0]));
    }
}

/// Sorting a category's task indices neither loses nor invents one.
pub proof fn lemma_sort_by_days_multiset(ts: Seq<Task>, today: Date, s: Seq<usize>)
    ensures
        spec_sort_by_days(ts, today, s).to_multiset() =~= s.to_multiset(),
    decreases s.len(),
{
    broadcast use vstd::seq_lib::group_to_multiset_ensures;
    broadcast use vstd::multiset::group_multiset_axioms;

    if s.len() == 0 {
    } else {
        lemma_sort_by_days_multiset(ts, today, s.drop_last());
        lemma_insert_by_days_multiset(ts, today, spec_sort_by_days(ts, today, s.drop_last()), s.last());
        assert(s =~= s.drop_last().push(s.last()));
    }
}

/// Within one category the report sorts the task indices into display
/// order: descending remaining days, ties showing the later insertion
/// first.
pub proof fn lemma_sort_by_days_ordered(ts: Seq<Task>, today: Date, s: Seq<usize>)
    ensures
        spec_days_ordered(ts, today, spec_sort_by_days(ts, today, s)),
    decreases s.len(),
{
    if s.len() == 0 {
    } else {
        lemma_sort_by_days_ordered(ts, today, s.drop_last());
        lemma_insert_by_days_ordered(
            ts,
            today,
            spec_sort_by_days(ts, today, s.drop_last()),
            s.last(),
        );
    }
}

/// The indices, in storage order, of the tasks in a category.
pub open spec fn spec_cat_indices(ts: Seq<Task>, cat: Seq<char>) -> Seq<usize>
    decreases ts.len(),
{
    if ts.len() == 0 {
        Seq::empty()
    } else {
        let prev = spec_cat_indices(ts.drop_last(), cat);
        if ts.last().category@ == cat {
            prev.push((ts.len() - 1) as usize)
        } else {
            prev
        }
    }
}

pub open spec fn all_below(s: Seq<usize>, n: int) -> bool {
    forall|k: int| 0 <= k < s.len() ==> (#[trigger] s[k]) < n
}

/// The rendered lines of one category group, in display order: a space,
/// the annotated rendering and a line break for each task the report shows.
pub open spec fn spec_group_lines(
    ts: Seq<Task>,
    colors: FormatParams,
    today: Date,
    idxs: Seq<usize>,
) -> Seq<char>
    decreases idxs.len(),
{
    if idxs.len() == 0 {
        Seq::empty()
    } else {
        spec_group_lines(ts, colors, today, idxs.drop_last()) + {
            let line = ts[idxs.last() as int].spec_formatted_conky(colors, true, today);
            if line.len() == 0 {
                Seq::<char>::empty()
            } else {
                " "@ + line + "\n"@
            }
        }
    }
}

/// One category's block: its sorted, rendered lines, under a header when
/// the category is named, with a blank separator line after; a group whose
/// every task is hidden contributes nothing.
pub open spec fn spec_cat_block(
    ts: Seq<Task>,
    colors: FormatParams,
    today: Date,
    cat: Seq<char>,
) -> Seq<char> {
    let sorted = spec_sort_by_days(ts, today, spec_cat_indices(ts, cat));
    let body = spec_group_lines(ts, colors, today, sorted);
    if body.len() == 0 {
        Seq::<char>::empty()
    } else {
        (if cat.len() > 0 {
            "${"@ + colors.category@ + "}"@ + cat + ":\n"@
        } else {
            Seq::<char>::empty()
        }) + body + "\n"@
    }
}

/// The blocks of the given categories, in order.
pub open spec fn spec_blocks(
    ts: Seq<Task>,
    colors: FormatParams,
    today: Date,
    cats: Seq<Seq<char>>,
) -> Seq<char>
    decreases cats.len(),
{
    if cats.len() == 0 {
        Seq::empty()
    } else {
        spec_blocks(ts, colors, today, cats.drop_last()) + spec_cat_block(
            ts,
            colors,
            today,
            cats.last(),
        )
    }
}

/// The full report: the block of every distinct category, the categories
/// in ascending lexicographic order.
pub open spec fn spec_full_print(ts: Seq<Task>, colors: FormatParams, today: Date) -> Seq<char> {
    spec_blocks(ts, colors, today, spec_sort_lex(spec_first_seen_cats(ts)))
}

/// Whether the bulk removal keeps a task: it goes only when it is marked
/// done and its remaining days, with -1 standing in for "no due date", are
/// negative.
pub open spec fn spec_kept_after_removal(t: Task, today: Date) -> bool {
    !(t.done && t.spec_days_key(today) < 0)
}

/// The task sequence after the bulk removal of completed overdue tasks.
pub open spec fn spec_remove_done(ts: Seq<Task>, today: Date) -> Seq<Task> {
    ts.filter(|t: Task| spec_kept_after_removal(t, today))
}

/// Owns the task sequence and the format parameters, and renders the two
/// task listings.
pub struct TasksManager {
    pub colors: FormatParams,
    pub tasks: Vec<Task>,
}

fn contains_str(v: &Vec<String>, s: &String) -> (r: bool)
    ensures
        r == v.deep_view().contains(s@),
{
    let mut i: usize = 0;
    while i < v.len()
        invariant
            i <= v@.len(),
            forall|j: int| 0 <= j < i ==> v.deep_view()[j] != s@,
        decreases v@.len() - i,
    {
        if v[i].eq(s) {
            assert(v.deep_view()[i as int] == s@);
            return true;
        }
        i += 1;
    }
    assert(!v.deep_view().contains(s@));
    false
}

fn str_le(a: &str, b: &str) -> (r: bool)
    ensures
        r == spec_lex_le(a@, b@),
{
    let alen = a.unicode_len();
    let blen = b.unicode_len();
    let mut i: usize = 0;
    proof {
        assert(a@.skip(0) =~= a@);
        assert(b@.skip(0) =~= b@);
    }
    while i < alen && i < blen
        invariant
            i <= alen,
            i <= blen,
            alen == a@.len(),
            blen == b@.len(),
            spec_lex_le(a@, b@) == spec_lex_le(a@.skip(i as int), b@.skip(i as int)),
        decreases alen - i,
    {
        let ca = a.get_char(i);
        let cb = b.get_char(i);
        proof {
            assert(a@.skip(i as int)[0] == a@[i as int]);
            assert(b@.skip(i as int)[0] == b@[i as int]);
        }
        if (ca as u32) < (cb as u32) {
            return true;
        }
        if (ca as u32) > (cb as u32) {
            return false;
        }
        proof {
            assert(a@.skip(i as int).skip(1) =~= a@.skip(i + 1));
            assert(b@.skip(i as int).skip(1) =~= b@.skip(i + 1));
        }
        i += 1;
    }
    if i == alen {
        assert(a@.skip(i as int).len() == 0);
        true
    } else {
        assert(b@.skip(i as int).len() == 0);
        assert(a@.skip(i as int).len() > 0);
        false
    }
}

proof fn lemma_insert_lex_at(cs: Seq<Seq<char>>, c: Seq<char>, p: int)
    requires
        0 <= p <= cs.len(),
        forall|q: int| 0 <= q < p ==> !spec_lex_le(c, #[trigger] cs[q]),
        p < cs.len() ==> spec_lex_le(c, cs[p]),
    ensures
        spec_insert_lex(cs, c) == cs.subrange(0, p) + seq![c] + cs.skip(p),
    decreases p,
{
    if p == 0 {
        assert(spec_insert_lex(cs, c) =~= cs.subrange(0, 0) + seq![c] + cs.skip(0));
    } else {
        assert(!spec_lex_le(c, cs[0]));
        assert(forall|q: int| 0 <= q < p - 1 ==> cs.skip(1)[q] == cs[q + 1]);
        lemma_insert_lex_at(cs.skip(1), c, p - 1);
        assert(cs.skip(1).subrange(0, p - 1) =~= cs.subrange(1, p));
        assert(cs.skip(1).skip(p - 1) =~= cs.skip(p));
        assert(spec_insert_lex(cs, c) =~= cs.subrange(0, p) + seq![c] + cs.skip(p));
    }
}

fn insert_cat_sorted(res: &mut Vec<String>, c: String)
    ensures
        final(res).deep_view() == spec_insert_lex(old(res).deep_view(), c@),
{
    let mut p: usize = 0;
    let mut found = false;
    while p < res.len() && !found
        invariant
            p <= res@.len(),
            found ==> p < res@.len() && spec_lex_le(c@, res.deep_view()[p as int]),
            forall|q: int| 0 <= q < p ==> !spec_lex_le(c@, #[trigger] res.deep_view()[q]),
            res == old(res),
        decreases res@.len() - p + (if found {
            0int
        } else {
            1int
        }),
    {
        if str_le(c.as_str(), res[p].as_str()) {
            found = true;
        } else {
            p += 1;
        }
    }
    proof {
        lemma_insert_lex_at(res.deep_view(), c@, p as int);
    }
    let ghost old_dv = res.deep_view();
    res.insert(p, c);
    proof {
        assert(res.deep_view() =~= old_dv.subrange(0, p as int) + seq![c@] + old_dv.skip(p as int));
    }
}

proof fn lemma_insert_by_days_at(ts: Seq<Task>, today: Date, s: Seq<usize>, i: usize, p: int)
    requires
        0 <= p <= s.len(),
        forall|q: int| 0 <= q < p ==> !spec_report_before(ts, today, i, #[trigger] s[q]),
        p < s.len() ==> spec_report_before(ts, today, i, s[p]),
    ensures
        spec_insert_by_days(ts, today, s, i) == s.subrange(0, p) + seq![i] + s.skip(p),
    decreases p,
{
    if p == 0 {
        assert(spec_insert_by_days(ts, today, s, i) =~= s.subrange(0, 0) + seq![i] + s.skip(0));
    } else {
        assert(!spec_report_before(ts, today, i, s[0]));
        assert(forall|q: int| 0 <= q < p - 1 ==> s.skip(1)[q] == s[q + 1]);
        lemma_insert_by_days_at(ts, today, s.skip(1), i, p - 1);
        assert(s.skip(1).subrange(0, p - 1) =~= s.subrange(1, p));
        assert(s.skip(1).skip(p - 1) =~= s.skip(p));
        assert(spec_insert_by_days(ts, today, s, i) =~= s.subrange(0, p) + seq![i] + s.skip(p));
    }
}

fn insert_idx_sorted(ts: &Vec<Task>, today: Date, res: &mut Vec<usize>, idx: usize)
    requires
        forall|k: int| 0 <= k < ts@.len() ==> (#[trigger] ts@[k]).wf(),
        1 <= today.day <= 366,
        all_below(old(res)@, ts@.len() as int),
        idx < ts@.len(),
    ensures
        final(res)@ == spec_insert_by_days(ts@, today, old(res)@, idx),
        all_below(final(res)@, ts@.len() as int),
{
    let key = ts[idx].days_key_on(today);
    let mut p: usize = 0;
    let mut found = false;
    while p < res.len() && !found
        invariant
            p <= res@.len(),
            all_below(res@, ts@.len() as int),
            forall|k: int| 0 <= k < ts@.len() ==> (#[trigger] ts@[k]).wf(),
            1 <= today.day <= 366,
            idx < ts@.len(),
            key as int == ts@[idx as int].spec_days_key(today),
            found ==> p < res@.len() && spec_report_before(ts@, today, idx, res@[p as int]),
            forall|q: int| 0 <= q < p ==> !spec_report_before(ts@, today, idx, #[trigger] res@[q]),
            res == old(res),
        decreases res@.len() - p + (if found {
            0int
        } else {
            1int
        }),
    {
        let other = res[p];
        let okey = ts[other].days_key_on(today);
        if key > okey || (key == okey && idx > other) {
            found = true;
        } else {
            p += 1;
        }
    }
    proof {
        lemma_insert_by_days_at(ts@, today, res@, idx, p as int);
    }
    let ghost old_s = res@;
    res.insert(p, idx);
    proof {
        assert(res@ =~= old_s.subrange(0, p as int) + seq![idx] + old_s.skip(p as int));
        assert(all_below(res@, ts@.len() as int));
    }
}

fn sort_categories(cats: &Vec<String>) -> (r: Vec<String>)
    ensures
        r.deep_view() == spec_sort_lex(cats.deep_view()),
{
    let mut res: Vec<String> = Vec::new();
    let mut i: usize = 0;
    proof {
        assert(cats.deep_view().subrange(0, 0) =~= Seq::<Seq<char>>::empty());
        assert(res.deep_view() =~= Seq::<Seq<char>>::empty());
    }
    while i < cats.len()
        invariant
            i <= cats@.len(),
            cats.deep_view().len() == cats@.len(),
            res.deep_view() == spec_sort_lex(cats.deep_view().subrange(0, i as int)),
        decreases cats@.len() - i,
    {
        let c = cats[i].clone();
        let ghost cv = c@;
        insert_cat_sorted(&mut res, c);
        proof {
            let dv = cats.deep_view();
            assert(dv.subrange(0, i + 1).drop_last() =~= dv.subrange(0, i as int));
            assert(dv.subrange(0, i + 1).last() == cv);
        }
        i += 1;
    }
    proof {
        assert(cats.deep_view().subrange(0, cats.deep_view().len() as int) =~= cats.deep_view());
    }
    res
}

fn sort_indices(ts: &Vec<Task>, today: Date, idxs: &Vec<usize>) -> (r: Vec<usize>)
    requires
        forall|k: int| 0 <= k < ts@.len() ==> (#[trigger] ts@[k]).wf(),
        1 <= today.day <= 366,
        all_below(idxs@, ts@.len() as int),
    ensures
        r@ == spec_sort_by_days(ts@, today, idxs@),
        all_below(r@, ts@.len() as int),
{
    let mut res: Vec<usize> = Vec::new();
    let mut i: usize = 0;
    proof {
        assert(idxs@.subrange(0, 0) =~= Seq::<usize>::empty());
    }
    while i < idxs.len()
        invariant
            i <= idxs@.len(),
            forall|k: int| 0 <= k < ts@.len() ==> (#[trigger] ts@[k]).wf(),
            1 <= today.day <= 366,
            all_below(idxs@, ts@.len() as int),
            all_below(res@, ts@.len() as int),
            res@ == spec_sort_by_days(ts@, today, idxs@.subrange(0, i as int)),
        decreases idxs@.len() - i,
    {
        let idx = idxs[i];
        assert(idx < ts@.len());
        insert_idx_sorted(ts, today, &mut res, idx);
        proof {
            let pre1 = idxs@.subrange(0, i + 1);
            assert(pre1.drop_last() =~= idxs@.subrange(0, i as int));
            assert(pre1.last() == idx);
        }
        i += 1;
    }
    proof {
        assert(idxs@.subrange(0, idxs@.len() as int) =~= idxs@);
    }
    res
}

impl TasksManager {
    /// Every stored due date is in range for its year.
    pub open spec fn wf(self) -> bool {
        forall|i: int| 0 <= i < self.tasks@.len() ==> (#[trigger] self.tasks@[i]).wf()
    }

    /// An empty collection: no tasks, empty markup tokens, and the horizon
    /// cutoff disabled.
    pub fn default() -> (m: TasksManager)
        ensures
            m.tasks@.len() == 0,
            m.colors.default@ == Seq::<char>::empty(),
            m.colors.category@ == Seq::<char>::empty(),
            m.colors.done@ == Seq::<char>::empty(),
            m.colors.prio_1@ == Seq::<char>::empty(),
            m.colors.prio_2@ == Seq::<char>::empty(),
            m.colors.prio_3@ == Seq::<char>::empty(),
            m.colors.show_days_forward == -1,
            m.colors.sub_category is Some,
            m.colors.sub_category->0@ == Seq::<char>::empty(),
            m.wf(),
    {
        TasksManager {
            colors: FormatParams {
                default: String::new(),
                category: String::new(),
                sub_category: Some(String::new()),
                prio_1: String::new(),
                prio_2: String::new(),
                prio_3: String::new(),
                done: String::new(),
                show_days_forward: -1,
            },
            tasks: Vec::new(),
        }
    }

    /// Appends a task at the end of the sequence.
    pub fn add_task(&mut self, task: Task)
        ensures
            final(self).tasks@ == old(self).tasks@.push(task),
            final(self).colors == old(self).colors,
    {
        self.tasks.push(task);
    }

    /// Removes the task at the given position; out-of-range positions are
    /// silently ignored.
    pub fn remove_task(&mut self, task_at: usize)
        ensures
            task_at < old(self).tasks@.len() ==> final(self).tasks@ == old(self).tasks@.remove(
                task_at as int,
            ),
            task_at >= old(self).tasks@.len() ==> final(self).tasks@ == old(self).tasks@,
            final(self).colors == old(self).colors,
    {
        if task_at < self.tasks.len() {
            self.tasks.remove(task_at);
        }
    }

    /// Discards every task that is marked done and whose remaining days,
    /// with -1 standing in for "no due date", are negative: completed
    /// overdue tasks and completed undated tasks go, everything else stays.
    pub fn remove_done_on(&mut self, today: Date)
        requires
            old(self).wf(),
            1 <= today.day <= 366,
        ensures
            final(self).tasks@ == spec_remove_done(old(self).tasks@, today),
            final(self).colors == old(self).colors,
    {
        let ghost orig = self.tasks@;
        let n = self.tasks.len();
        assert(orig.len() == n);
        let mut kept: Vec<Task> = Vec::new();
        let mut i: usize = 0;
        proof {
            reveal(Seq::filter);
            assert(spec_remove_done(orig.subrange(0, 0), today) =~= Seq::<Task>::empty());
        }
        while self.tasks.len() > 0
            invariant
                self.colors == old(self).colors,
                i + self.tasks@.len() == orig.len(),
                self.tasks@ == orig.subrange(i as int, orig.len() as int),
                kept@ == spec_remove_done(orig.subrange(0, i as int), today),
                old(self).wf(),
                orig == old(self).tasks@,
                orig.len() <= usize::MAX,
                1 <= today.day <= 366,
            decreases self.tasks@.len(),
        {
            let t = self.tasks.remove(0);
            assert(t == orig[i as int]);
            assert(t.wf());
            let days: i16 = match &t.due {
                Some(d) => d.days_remaining_from(today),
                None => -1,
            };
            let discard = t.done && days < 0;
            proof {
                reveal(Seq::filter);
                assert(discard == !spec_kept_after_removal(t, today));
                let pre0 = orig.subrange(0, i as int);
                let pre1 = orig.subrange(0, i + 1);
                assert(pre1.drop_last() =~= pre0);
                assert(pre1.last() == t);
                if spec_kept_after_removal(t, today) {
                    assert(spec_remove_done(pre1, today) =~= spec_remove_done(pre0, today)
                        + seq![t]);
                } else {
                    assert(spec_remove_done(pre1, today) =~= spec_remove_done(pre0, today));
                }
                assert(self.tasks@ =~= orig.subrange(i + 1, orig.len() as int));
            }
            if !discard {
                kept.push(t);
                assert(kept@ =~= spec_remove_done(orig.subrange(0, i + 1), today));
            }
            i += 1;
        }
        proof {
            assert(orig.subrange(0, orig.len() as int) =~= orig);
        }
        self.tasks = kept;
    }

    /// Discards completed tasks whose due date has passed, relative to the
    /// current date; completed tasks with no due date go as well.
    pub fn remove_done(&mut self)
        requires
            old(self).wf(),
        ensures
            exists|t: Date|
                1 <= t.day <= 366 && final(self).tasks@ == #[trigger] spec_remove_done(
                    old(self).tasks@,
                    t,
                ),
            final(self).colors == old(self).colors,
    {
        let today = today_date();
        self.remove_done_on(today);
        proof {
            assert(1 <= today.day <= 366 && self.tasks@ == spec_remove_done(
                old(self).tasks@,
                today,
            ));
        }
    }

    /// The distinct categories across all tasks, in first-seen order.
    pub fn get_categories(&self) -> (r: Box<Vec<String>>)
        ensures
            r.deep_view() == spec_first_seen_cats(self.tasks@),
    {
        let mut cats: Vec<String> = Vec::with_capacity(5);
        let mut i: usize = 0;
        proof {
            assert(spec_first_seen_cats(self.tasks@.subrange(0, 0)) =~= Seq::<Seq<char>>::empty());
            assert(cats.deep_view() =~= Seq::<Seq<char>>::empty());
        }
        while i < self.tasks.len()
            invariant
                i <= self.tasks@.len(),
                cats.deep_view() == spec_first_seen_cats(self.tasks@.subrange(0, i as int)),
            decreases self.tasks@.len() - i,
        {
            let ghost pre0 = self.tasks@.subrange(0, i as int);
            let ghost pre1 = self.tasks@.subrange(0, i + 1);
            proof {
                assert(pre1.drop_last() =~= pre0);
                assert(pre1.last() == self.tasks@[i as int]);
            }
            if !contains_str(&cats, &self.tasks[i].category) {
                cats.push(self.tasks[i].category.clone());
                assert(cats.deep_view() =~= spec_first_seen_cats(pre1));
            }
            i += 1;
        }
        proof {
            assert(self.tasks@.subrange(0, self.tasks@.len() as int) =~= self.tasks@);
        }
        Box::new(cats)
    }

    /// The numbered task list for a given reference date: one line per task
    /// in storage order, `index(category) plain-rendering`.
    pub fn tasks_list_on(&self, today: Date) -> (r: String)
        requires
            self.wf(),
            1 <= today.day <= 366,
        ensures
            r@ == spec_tasks_list(self.tasks@, today),
    {
        let mut s = String::new();
        let mut i: usize = 0;
        while i < self.tasks.len()
            invariant
                self.wf(),
                1 <= today.day <= 366,
                i <= self.tasks@.len(),
                s@ == spec_tasks_list_prefix(self.tasks@, today, i as int),
            decreases self.tasks@.len() - i,
        {
            let t = &self.tasks[i];
            s.append(u64_to_string(i as u64).as_str());
            s.append("(");
            s.append(t.category.as_str());
            s.append(") ");
            s.append(t.formatted_on(true, today).as_str());
            s.append("\n");
            proof {
                assert(s@ =~= spec_tasks_list_prefix(self.tasks@, today, i + 1));
            }
            i += 1;
        }
        s
    }

    /// The categorized, annotated report for a given reference date: one
    /// block per category in ascending lexicographic order, each block's
    /// tasks in descending remaining days, hidden tasks and empty blocks
    /// omitted.
    #[verifier::rlimit(100)]
    pub fn full_print_on(&self, today: Date) -> (r: String)
        requires
            self.wf(),
            1 <= today.day <= 366,
        ensures
            r@ == spec_full_print(self.tasks@, self.colors, today),
    {
        let cats = self.get_categories();
        let sorted_cats = sort_categories(&cats);
        let ghost scdv = sorted_cats.deep_view();
        let mut res = String::new();
        let mut ci: usize = 0;
        proof {
            assert(scdv.subrange(0, 0) =~= Seq::<Seq<char>>::empty());
        }
        while ci < sorted_cats.len()
            invariant
                self.wf(),
                1 <= today.day <= 366,
                ci <= sorted_cats@.len(),
                scdv == sorted_cats.deep_view(),
                scdv.len() == sorted_cats@.len(),
                scdv == spec_sort_lex(spec_first_seen_cats(self.tasks@)),
                res@ == spec_blocks(self.tasks@, self.colors, today, scdv.subrange(0, ci as int)),
            decreases sorted_cats@.len() - ci,
        {
            let cat = &sorted_cats[ci];
            let mut idxs: Vec<usize> = Vec::new();
            let mut j: usize = 0;
            proof {
                assert(spec_cat_indices(self.tasks@.subrange(0, 0), cat@)
                    =~= Seq::<usize>::empty());
            }
            while j < self.tasks.len()
                invariant
                    j <= self.tasks@.len(),
                    cat@ == scdv[ci as int],
                    idxs@ == spec_cat_indices(self.tasks@.subrange(0, j as int), cat@),
                    all_below(idxs@, j as int),
                decreases self.tasks@.len() - j,
            {
                proof {
                    let pre1 = self.tasks@.subrange(0, j + 1);
                    assert(pre1.drop_last() =~= self.tasks@.subrange(0, j as int));
                    assert(pre1.last() == self.tasks@[j as int]);
                }
                if self.tasks[j].category.eq(cat) {
                    idxs.push(j);
                }
                j += 1;
            }
            proof {
                assert(self.tasks@.subrange(0, self.tasks@.len() as int) =~= self.tasks@);
                assert(all_below(idxs@, self.tasks@.len() as int));
            }
            let sorted_idxs = sort_indices(&self.tasks, today, &idxs);
            let mut body = String::new();
            let mut inserted = false;
            let mut k: usize = 0;
            proof {
                assert(spec_group_lines(
                    self.tasks@,
                    self.colors,
                    today,
                    sorted_idxs@.subrange(0, 0),
                ) =~= Seq::<char>::empty());
            }
            while k < sorted_idxs.len()
                invariant
                    self.wf(),
                    1 <= today.day <= 366,
                    k <= sorted_idxs@.len(),
                    all_below(sorted_idxs@, self.tasks@.len() as int),
                    body@ == spec_group_lines(
                        self.tasks@,
                        self.colors,
                        today,
                        sorted_idxs@.subrange(0, k as int),
                    ),
                    inserted <==> body@.len() > 0,
                decreases sorted_idxs@.len() - k,
            {
                let idx = sorted_idxs[k];
                assert(idx < self.tasks@.len());
                let line = self.tasks[idx].formatted_conky_on(&self.colors, true, today);
                proof {
                    let pre1 = sorted_idxs@.subrange(0, k + 1);
                    assert(pre1.drop_last() =~= sorted_idxs@.subrange(0, k as int));
                    assert(pre1.last() == idx);
                }
                if line.as_str().unicode_len() != 0 {
                    body.append(" ");
                    body.append(line.as_str());
                    body.append("\n");
                    inserted = true;
                    proof {
                        assert(body@ =~= spec_group_lines(
                            self.tasks@,
                            self.colors,
                            today,
                            sorted_idxs@.subrange(0, k + 1),
                        ));
                    }
                } else {
                    proof {
                        assert(body@ =~= spec_group_lines(
                            self.tasks@,
                            self.colors,
                            today,
                            sorted_idxs@.subrange(0, k + 1),
                        ));
                    }
                }
                k += 1;
            }
            proof {
                assert(sorted_idxs@.subrange(0, sorted_idxs@.len() as int) =~= sorted_idxs@);
            }
            let ghost pre1 = scdv.subrange(0, ci + 1);
            proof {
                assert(pre1.drop_last() =~= scdv.subrange(0, ci as int));
                assert(pre1.last() == cat@);
            }
            if inserted {
                if cat.as_str().unicode_len() != 0 {
                    res.append("${");
                    res.append(self.colors.category.as_str());
                    res.append("}");
                    res.append(cat.as_str());
                    res.append(":\n");
                }
                res.append(body.as_str());
                res.append("\n");
            }
            proof {
                assert(res@ =~= spec_blocks(self.tasks@, self.colors, today, pre1));
            }
            ci += 1;
        }
        proof {
            assert(scdv.subrange(0, scdv.len() as int) =~= scdv);
        }
        res
    }

    /// The categorized, annotated report relative to the current date.
    pub fn full_print_for_conky(&self) -> (r: String)
        requires
            self.wf(),
        ensures
            exists|t: Date|
                1 <= t.day <= 366 && r@ == #[trigger] spec_full_print(
                    self.tasks@,
                    self.colors,
                    t,
                ),
    {
        let today = today_date();
        let r = self.full_print_on(today);
        proof {
            assert(1 <= today.day <= 366 && r@ == spec_full_print(self.tasks@, self.colors, today));
        }
        r
    }

    /// The numbered task list relative to the current date.
    pub fn tasks_list(&self) -> (r: String)
        requires
            self.wf(),
        ensures
            exists|t: Date| 1 <= t.day <= 366 && r@ == spec_tasks_list(self.tasks@, t),
    {
        let today = today_date();
        let r = self.tasks_list_on(today);
        proof {
            assert(1 <= today.day <= 366 && r@ == spec_tasks_list(self.tasks@, today));
        }
        r
    }
}

} // verus!
