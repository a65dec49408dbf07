use vstd::prelude::*;
use crate::markdown::{date_of, extract_date, extract_title, markdown_events, title_of, NO_OPTIONS};
use crate::paths::{file_stem, join_path, joined, stem_of};
use crate::text::{concat, lemma_lex_lt_at, lemma_lex_lt_prefix, lex_lt, lemma_lex_irreflexive, lemma_lex_total, lemma_lex_transitive, str_less};

verus! {

/// One post of the blog list: its date, its title and the file stem its page is named after.
pub struct PostEntry {
    pub date: String,
    pub title: String,
    pub path: String,
}

/// `s` with `x` inserted after every entry whose date is not earlier than `x`'s.
pub open spec fn insert_by_date(s: Seq<PostEntry>, x: PostEntry) -> Seq<PostEntry>
    decreases s.len(),
{
    if s.len() == 0 {
        seq![x]
    } else if lex_lt(s[0].date@, x.date@) {
        seq![x] + s
    } else {
        seq![s[0]] + insert_by_date(s.drop_first(), x)
    }
}

/// The entries ordered newest date first; entries with equal dates keep their order
/// (a stable sort by date, descending).
pub open spec fn sort_by_date(s: Seq<PostEntry>) -> Seq<PostEntry>
    decreases s.len(),
{
    if s.len() == 0 {
        s
    } else {
        insert_by_date(sort_by_date(s.drop_last()), s.last())
    }
}

/// Dates never increase along `s`.
pub open spec fn dates_descending(s: Seq<PostEntry>) -> bool {
    forall|i: int, j: int| 0 <= i < j < s.len() ==> !lex_lt(#[trigger] s[i].date@, #[trigger] s[j].date@)
}

/// The entries of `s` whose date is `d`, in order.
pub open spec fn with_date(s: Seq<PostEntry>, d: Seq<char>) -> Seq<PostEntry> {
    s.filter(has_date(d))
}

/// Whether an entry's date is `d`.
pub open spec fn has_date(d: Seq<char>) -> spec_fn(PostEntry) -> bool {
    |e: PostEntry| e.date@ == d
}

/// Where `insert_by_date` puts `x`: before the first entry whose date is earlier.
proof fn lemma_insert_position(s: Seq<PostEntry>, x: PostEntry) -> (k: int)
    ensures
        0 <= k <= s.len(),
        insert_by_date(s, x) == s.insert(k, x),
        forall|j: int| 0 <= j < k ==> !lex_lt(#[trigger] s[j].date@, x.date@),
        k < s.len() ==> lex_lt(s[k].date@, x.date@),
    decreases s.len(),
{
    if s.len() == 0 {
        assert(s.insert(0, x) =~= seq![x]);
        0
    } else if lex_lt(s[0].date@, x.date@) {
        assert(s.insert(0, x) =~= seq![x] + s);
        0
    } else {
        let t = s.drop_first();
        let k1 = lemma_insert_position(t, x);
        assert(s.insert(k1 + 1, x) =~= seq![s[0]] + t.insert(k1, x));
        assert forall|j: int| 0 <= j < k1 + 1 implies !lex_lt(#[trigger] s[j].date@, x.date@) by {
            if j > 0 {
                assert(s[j] == t[j - 1]);
            }
        }
        k1 + 1
    }
}

/// Inserting into a date-descending sequence keeps it date-descending.
proof fn lemma_insert_keeps_order(s: Seq<PostEntry>, x: PostEntry)
    requires
        dates_descending(s),
    ensures
        dates_descending(insert_by_date(s, x)),
{
    let k = lemma_insert_position(s, x);
    let r = insert_by_date(s, x);
    s.insert_ensures(k, x);
    assert forall|i: int, j: int| 0 <= i < j < r.len() implies !lex_lt(
        #[trigger] r[i].date@,
        #[trigger] r[j].date@,
    ) by {
        if j < k {
            assert(r[i] == s[i] && r[j] == s[j]);
        } else if j == k {
            assert(r[i] == s[i]);
        } else if i == k {
            assert(r[j] == s[j - 1]);
            if lex_lt(x.date@, s[j - 1].date@) {
                if j - 1 > k {
                    assert(!lex_lt(s[k].date@, s[j - 1].date@));
                    lemma_lex_transitive(s[k].date@, x.date@, s[j - 1].date@);
                } else {
                    lemma_lex_total(s[k].date@, x.date@);
                }
            }
        } else if i < k {
            assert(r[i] == s[i] && r[j] == s[j - 1]);
        } else {
            assert(r[i] == s[i - 1] && r[j] == s[j - 1]);
        }
    }
}

/// The entries sorted by `sort_by_date` have dates that never increase.
pub proof fn lemma_sort_descending(s: Seq<PostEntry>)
    ensures
        dates_descending(sort_by_date(s)),
    decreases s.len(),
{
    if s.len() > 0 {
        lemma_sort_descending(s.drop_last());
        lemma_insert_keeps_order(sort_by_date(s.drop_last()), s.last());
    }
}

/// Sorting keeps every entry, as many times as it occurs.
pub proof fn lemma_sort_permutes(s: Seq<PostEntry>)
    ensures
        sort_by_date(s).to_multiset() == s.to_multiset(),
    decreases s.len(),
{
    if s.len() > 0 {
        lemma_sort_permutes(s.drop_last());
        let t = sort_by_date(s.drop_last());
        let k = lemma_insert_position(t, s.last());
        vstd::seq_lib::to_multiset_insert(t, k, s.last());
        vstd::seq_lib::to_multiset_build(s.drop_last(), s.last());
        assert(s.drop_last().push(s.last()) =~= s);
    } else {
        assert(sort_by_date(s) == s);
    }
}

/// Entries with equal dates come out in the order they went in (the sort is stable).
pub proof fn lemma_sort_stable(s: Seq<PostEntry>, d: Seq<char>)
    ensures
        with_date(sort_by_date(s), d) == with_date(s, d),
    decreases s.len(),
{
    let p = has_date(d);
    if s.len() > 0 {
        let t = sort_by_date(s.drop_last());
        let x = s.last();
        lemma_sort_stable(s.drop_last(), d);
        lemma_sort_descending(s.drop_last());
        let k = lemma_insert_position(t, x);
        t.insert_ensures(k, x);
        let pre = t.subrange(0, k);
        let post = t.subrange(k, t.len() as int);
        assert(t =~= pre + post);
        assert(t.insert(k, x) =~= pre.push(x) + post);
        Seq::filter_distributes_over_add(pre, post, p);
        Seq::filter_distributes_over_add(pre.push(x), post, p);
        pre.lemma_filter_push(x, p);
        s.drop_last().lemma_filter_push(x, p);
        assert(s.drop_last().push(x) =~= s);
        if x.date@ == d {
            // every entry from position k on is strictly older than x
            assert forall|m: int| 0 <= m < post.len() implies !p(#[trigger] post[m]) by {
                assert(post[m] == t[k + m]);
                if m > 0 {
                    assert(!lex_lt(t[k].date@, t[k + m].date@));
                    lemma_lex_total(t[k].date@, t[k + m].date@);
                    if t[k].date@ != t[k + m].date@ {
                        lemma_lex_transitive(t[k + m].date@, t[k].date@, x.date@);
                    }
                }
                lemma_lex_irreflexive(x.date@);
            }
            post.lemma_all_neg_filter_empty(p);
            assert(post.filter(p) =~= Seq::<PostEntry>::empty());
            assert(with_date(sort_by_date(s), d) == pre.filter(p).push(x) + post.filter(p));
            assert(with_date(sort_by_date(s), d) =~= (pre.filter(p) + post.filter(p)).push(x));
        } else {
            assert(with_date(sort_by_date(s), d) == pre.filter(p) + post.filter(p));
        }
    } else {
        assert(sort_by_date(s) == s);
    }
}

/// The entries ordered newest date first, entries with equal dates in their original order
/// (what `sort_by(|a, b| b.date.cmp(&a.date))` gives).
pub fn sort_entries(entries: Vec<PostEntry>) -> (r: Vec<PostEntry>)
    ensures
        r@ == sort_by_date(entries@),
        dates_descending(r@),
        r@.to_multiset() == entries@.to_multiset(),
{
    let ghost orig = entries@;
    let mut input = entries;
    let mut out: Vec<PostEntry> = Vec::new();
    let ghost mut i: int = 0;
    assert(orig.take(0) =~= Seq::<PostEntry>::empty());
    assert(orig.skip(0) =~= orig);
    while input.len() > 0
        invariant
            0 <= i <= orig.len(),
            out@ == sort_by_date(orig.take(i)),
            input@ == orig.skip(i),
        decreases input.len(),
    {
        let x = input.remove(0);
        let mut k: usize = 0;
        while k < out.len() && !str_less(out[k].date.as_str(), x.date.as_str())
            invariant
                k <= out@.len(),
                forall|j: int| 0 <= j < k ==> !lex_lt(#[trigger] out@[j].date@, x.date@),
            decreases out.len() - k,
        {
            k = k + 1;
        }
        proof {
            let k2 = lemma_insert_position(out@, x);
            if k2 < k {
                assert(!lex_lt(out@[k2].date@, x.date@));
            }
            if k < k2 {
                assert(!lex_lt(out@[k as int].date@, x.date@));
            }
            assert(k2 == k);
            assert(orig.take(i + 1).drop_last() =~= orig.take(i));
            assert(orig.take(i + 1).last() == orig.skip(i)[0]);
            assert(orig.skip(i).drop_first() =~= orig.skip(i + 1));
        }
        out.insert(k, x);
        proof {
            i = i + 1;
        }
    }
    proof {
        assert(orig.take(i) =~= orig);
        lemma_sort_descending(orig);
        lemma_sort_permutes(orig);
    }
    out
}

/// The list entry of the post stored in the file `file_name` with the markdown `content`:
/// its date and title as the metadata scan finds them, and the stem of the file name.
pub fn post_entry(file_name: &str, content: &str) -> (r: PostEntry)
    ensures
        r.date@ == date_of(markdown_events(content@, NO_OPTIONS)),
        r.title@ == title_of(markdown_events(content@, NO_OPTIONS)),
        r.path@ == stem_of(file_name@),
{
    let title = extract_title(content);
    let date = extract_date(content);
    let path = file_stem(file_name);
    PostEntry { date, title, path }
}

/// Where the page of the post stored in the file `file_name` is written: `out/posts`
/// joined with the file's stem and `.html`.
pub fn post_output_file(file_name: &str) -> (r: String)
    ensures
        r@ == joined("out/posts"@, stem_of(file_name@) + ".html"@),
{
    let stem = file_stem(file_name);
    let page = concat(stem.as_str(), ".html");
    join_path("out/posts", page.as_str())
}

/// In the sorted list, of two dates that agree up to position `k` and differ there, the one
/// with the greater code point at `k` comes first; and an earlier date is never a proper
/// prefix of a later one (the longer of the two comes first).
pub proof fn lemma_sort_newer_first(s: Seq<PostEntry>, i: int, j: int, k: int)
    requires
        0 <= i < j < s.len(),
    ensures
        ({
            let a = sort_by_date(s)[i].date@;
            let b = sort_by_date(s)[j].date@;
            &&& (0 <= k < a.len() && k < b.len() && a.take(k) == b.take(k)) ==> (b[k] as int) <= (
            a[k] as int)
            &&& !(a.len() < b.len() && b.take(a.len() as int) == a)
        }),
{
    lemma_sort_descending(s);
    lemma_sort_permutes(s);
    let r = sort_by_date(s);
    assert(r.len() == s.len()) by {
        assert(r.to_multiset().len() == s.to_multiset().len());
        r.to_multiset_ensures();
        s.to_multiset_ensures();
    }
    let a = r[i].date@;
    let b = r[j].date@;
    assert(!lex_lt(a, b));
    if 0 <= k < a.len() && k < b.len() && a.take(k) == b.take(k) && (a[k] as int) < (b[k] as int) {
        lemma_lex_lt_at(a, b, k);
    }
    if a.len() < b.len() && b.take(a.len() as int) == a {
        lemma_lex_lt_prefix(a, b);
    }
}

} // verus!
