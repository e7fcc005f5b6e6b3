//! Putting things in order: what sorting gives, and what it keeps.

use vstd::prelude::*;

use crate::readlater::{Article, ArticleSortBy};
use crate::text::to_chars;

verus! {

/// `s`, which is in order, with `x` in its place: behind everything that it does not come before.
pub open spec fn put<A>(s: Seq<A>, x: A, before: spec_fn(A, A) -> bool) -> Seq<A>
    decreases s.len(),
{
    if s.len() > 0 && before(x, s.last()) {
        put(s.drop_last(), x, before).push(s.last())
    } else {
        s.push(x)
    }
}

/// `s` in order; what neither comes before the other stays as it was.
pub open spec fn sorted_by<A>(s: Seq<A>, before: spec_fn(A, A) -> bool) -> Seq<A>
    decreases s.len(),
{
    if s.len() == 0 {
        Seq::empty()
    } else {
        put(sorted_by(s.drop_last(), before), s.last(), before)
    }
}

/// Whether nothing comes after something that it comes before.
pub open spec fn in_order<A>(s: Seq<A>, before: spec_fn(A, A) -> bool) -> bool {
    forall|i: int, j: int| 0 <= i < j < s.len() ==> !before(#[trigger] s[j], #[trigger] s[i])
}

/// Whether `before` is an order: nothing comes before what comes before it, and what does not come
/// before one thing, which does not come before another, does not come before that either.
pub open spec fn is_order<A>(before: spec_fn(A, A) -> bool) -> bool {
    &&& forall|a: A, b: A| #[trigger] before(a, b) ==> !before(b, a)
    &&& forall|a: A, b: A, c: A|
        !(#[trigger] before(a, b)) && !(#[trigger] before(b, c)) ==> !before(a, c)
}

proof fn lemma_put<A>(s: Seq<A>, x: A, before: spec_fn(A, A) -> bool)
    requires
        is_order(before),
        in_order(s, before),
    ensures
        in_order(put(s, x, before), before),
        put(s, x, before).to_multiset() == s.to_multiset().insert(x),
        put(s, x, before).len() == s.len() + 1,
        forall|y: A| #[trigger] put(s, x, before).contains(y) ==> s.contains(y) || y == x,
    decreases s.len(),
{
    broadcast use vstd::seq_lib::group_to_multiset_ensures;

    let r = put(s, x, before);
    if s.len() > 0 && before(x, s.last()) {
        let rest = s.drop_last();
        let p = put(rest, x, before);
        assert(in_order(rest, before)) by {
            assert forall|i: int, j: int| 0 <= i < j < rest.len() implies !before(
                #[trigger] rest[j],
                #[trigger] rest[i],
            ) by {
                assert(rest[i] == s[i] && rest[j] == s[j]);
            }
        }
        lemma_put(rest, x, before);
        assert(s =~= rest.push(s.last()));
        assert(r.to_multiset() =~= s.to_multiset().insert(x));
        assert forall|y: A| #[trigger] r.contains(y) implies s.contains(y) || y == x by {
            let i = choose|i: int| 0 <= i < r.len() && r[i] == y;
            if i < p.len() {
                assert(p[i] == y);
                assert(p.contains(y));
                if rest.contains(y) {
                    let k = choose|k: int| 0 <= k < rest.len() && rest[k] == y;
                    assert(s[k] == y);
                }
            } else {
                assert(s[s.len() - 1] == y);
            }
        }
        assert forall|i: int, j: int| 0 <= i < j < r.len() implies !before(
            #[trigger] r[j],
            #[trigger] r[i],
        ) by {
            if j < p.len() {
                assert(r[i] == p[i] && r[j] == p[j]);
            } else {
                assert(r[i] == p[i] && r[j] == s.last());
                assert(p.contains(p[i]));
                if p[i] == x {
                } else {
                    assert(rest.contains(p[i]));
                    let k = choose|k: int| 0 <= k < rest.len() && rest[k] == p[i];
                    assert(s[k] == p[i]);
                    assert(!before(s[s.len() - 1], s[k]));
                }
            }
        }
    } else {
        assert(r.to_multiset() =~= s.to_multiset().insert(x));
        assert forall|i: int, j: int| 0 <= i < j < r.len() implies !before(
            #[trigger] r[j],
            #[trigger] r[i],
        ) by {
            assert(r[i] == s[i]);
            if j < s.len() {
                assert(r[j] == s[j]);
            } else {
                assert(r[j] == x);
                let last = s[s.len() - 1];
                if i < s.len() - 1 {
                    assert(!before(last, s[i]));
                    assert(!before(x, last));
                }
            }
        }
        assert forall|y: A| #[trigger] r.contains(y) implies s.contains(y) || y == x by {
            let i = choose|i: int| 0 <= i < r.len() && r[i] == y;
            if i < s.len() {
                assert(s[i] == y);
            }
        }
    }
}

/// Sorting puts everything in order, and neither drops nor adds anything.
pub proof fn law_sorting<A>(s: Seq<A>, before: spec_fn(A, A) -> bool)
    requires
        is_order(before),
    ensures
        in_order(sorted_by(s, before), before),
        sorted_by(s, before).to_multiset() == s.to_multiset(),
        sorted_by(s, before).len() == s.len(),
    decreases s.len(),
{
    broadcast use vstd::seq_lib::group_to_multiset_ensures;

    if s.len() > 0 {
        let rest = s.drop_last();
        law_sorting(rest, before);
        lemma_put(sorted_by(rest, before), s.last(), before);
        assert(s =~= rest.push(s.last()));
        assert(s.to_multiset() =~= rest.to_multiset().insert(s.last()));
    } else {
        assert(sorted_by(s, before) =~= s);
    }
}

/// Where `x` goes, everything behind it being what it comes before.
pub proof fn lemma_put_at<A>(s: Seq<A>, x: A, before: spec_fn(A, A) -> bool, k: int)
    requires
        0 <= k <= s.len(),
        forall|i: int| k <= i < s.len() ==> before(x, #[trigger] s[i]),
        k == 0 || !before(x, s[k - 1]),
    ensures
        put(s, x, before) == s.insert(k, x),
    decreases s.len(),
{
    if k < s.len() {
        let rest = s.drop_last();
        assert(s[s.len() - 1] == s.last());
        assert forall|i: int| k <= i < rest.len() implies before(x, #[trigger] rest[i]) by {
            assert(rest[i] == s[i]);
        }
        if k > 0 {
            assert(rest[k - 1] == s[k - 1]);
        }
        lemma_put_at(rest, x, before, k);
        assert(rest.insert(k, x).push(s.last()) =~= s.insert(k, x));
    } else {
        assert(s.insert(k, x) =~= s.push(x));
    }
}

/// Whether a text comes before another: by the first character in which they differ, and else by
/// being shorter.
pub open spec fn text_before(a: Seq<char>, b: Seq<char>) -> bool
    decreases a.len(),
{
    if b.len() == 0 {
        false
    } else if a.len() == 0 {
        true
    } else if a[0] != b[0] {
        a[0] < b[0]
    } else {
        text_before(a.skip(1), b.skip(1))
    }
}

/// The order of texts is an order, and only equal texts are not ordered.
pub proof fn lemma_text_order(a: Seq<char>, b: Seq<char>, c: Seq<char>)
    ensures
        text_before(a, b) ==> !text_before(b, a),
        !text_before(a, b) && !text_before(b, c) ==> !text_before(a, c),
        !text_before(a, b) && !text_before(b, a) ==> a == b,
    decreases a.len() + b.len() + c.len(),
{
    if a.len() > 0 && b.len() > 0 && c.len() > 0 {
        lemma_text_order(a.skip(1), b.skip(1), c.skip(1));
    } else if a.len() > 0 && b.len() > 0 {
        lemma_text_order(a.skip(1), b.skip(1), c);
    }
    if a.len() > 0 && b.len() > 0 && a[0] == b[0] && a.skip(1) == b.skip(1) {
        assert forall|i: int| 0 <= i < a.len() implies a[i] == b[i] by {
            if i > 0 {
                assert(a.skip(1)[i - 1] == b.skip(1)[i - 1]);
            }
        }
        assert(a.len() == a.skip(1).len() + 1);
        assert(a =~= b);
    }
    if a.len() == 0 && b.len() == 0 {
        assert(a =~= b);
    }
}

/// Whether a text comes before another.
pub fn comes_before(a: &str, b: &str) -> (r: bool)
    ensures
        r == text_before(a@, b@),
{
    let x = to_chars(a);
    let y = to_chars(b);
    let mut i: usize = 0;
    assert(a@.skip(0) =~= a@);
    assert(b@.skip(0) =~= b@);
    while i < x.len() && i < y.len() && x[i] == y[i]
        invariant
            i <= x@.len(),
            i <= y@.len(),
            x@ == a@,
            y@ == b@,
            text_before(a@, b@) == text_before(a@.skip(i as int), b@.skip(i as int)),
        decreases x@.len() - i,
    {
        assert(a@.skip(i as int).skip(1) =~= a@.skip(i as int + 1));
        assert(b@.skip(i as int).skip(1) =~= b@.skip(i as int + 1));
        i += 1;
    }
    if i == y.len() {
        false
    } else if i == x.len() {
        true
    } else {
        x[i] < y[i]
    }
}

/// A reading time, none being the least.
pub open spec fn minutes(t: Option<u32>) -> int {
    match t {
        Some(n) => n as int,
        None => -1,
    }
}

/// Whether an article comes before another: the later one, the title that comes first, or the
/// longer read.
pub open spec fn article_before(
    by: ArticleSortBy,
    a: crate::readlater::ArticleView,
    b: crate::readlater::ArticleView,
) -> bool {
    match by {
        ArticleSortBy::AddedAt => a.added_at.later(b.added_at),
        ArticleSortBy::UpdatedAt => a.updated_at.later(b.updated_at),
        ArticleSortBy::Title => text_before(a.title, b.title),
        ArticleSortBy::ReadingTime => minutes(a.reading_time_minutes) > minutes(
            b.reading_time_minutes,
        ),
    }
}

/// The order of articles.
pub open spec fn article_order(by: ArticleSortBy) -> spec_fn(
    crate::readlater::ArticleView,
    crate::readlater::ArticleView,
) -> bool {
    |a: crate::readlater::ArticleView, b: crate::readlater::ArticleView| article_before(by, a, b)
}

/// Articles are ordered.
pub proof fn law_articles_are_ordered(by: ArticleSortBy)
    ensures
        is_order(article_order(by)),
{
    let f = article_order(by);
    assert forall|a: crate::readlater::ArticleView, b: crate::readlater::ArticleView| #[trigger]
        f(a, b) implies !f(b, a) by {
        lemma_text_order(a.title, b.title, a.title);
    }
    assert forall|
        a: crate::readlater::ArticleView,
        b: crate::readlater::ArticleView,
        c: crate::readlater::ArticleView,
    |
        !(#[trigger] f(a, b)) && !(#[trigger] f(b, c)) implies !f(a, c) by {
        lemma_text_order(a.title, b.title, c.title);
    }
}

fn article_comes_before(by: ArticleSortBy, a: &Article, b: &Article) -> (r: bool)
    ensures
        r == article_before(by, a@, b@),
{
    match by {
        ArticleSortBy::AddedAt => a.added_at.is_after(b.added_at),
        ArticleSortBy::UpdatedAt => a.updated_at.is_after(b.updated_at),
        ArticleSortBy::Title => comes_before(a.title.as_str(), b.title.as_str()),
        ArticleSortBy::ReadingTime => match (a.reading_time_minutes, b.reading_time_minutes) {
            (Some(x), Some(y)) => x > y,
            (Some(_), None) => true,
            (None, _) => false,
        },
    }
}

/// The articles in order.
pub fn sort_articles(articles: &Vec<Article>, by: ArticleSortBy) -> (r: Vec<Article>)
    ensures
        crate::readlater::article_views(r@) == sorted_by(
            crate::readlater::article_views(articles@),
            article_order(by),
        ),
{
    let ghost all = crate::readlater::article_views(articles@);
    let ghost order = article_order(by);
    let mut out: Vec<Article> = Vec::new();
    let mut i: usize = 0;
    assert(all.take(0) =~= Seq::empty());
    assert(crate::readlater::article_views(out@) =~= Seq::empty());
    while i < articles.len()
        invariant
            i <= articles@.len(),
            all == crate::readlater::article_views(articles@),
            order == article_order(by),
            crate::readlater::article_views(out@) == sorted_by(all.take(i as int), order),
        decreases articles@.len() - i,
    {
        let x = articles[i].clone();
        let ghost xv = x@;
        let ghost s = crate::readlater::article_views(out@);
        assert(all.take(i as int + 1).drop_last() =~= all.take(i as int));
        assert(all.take(i as int + 1).last() == xv);
        let mut k: usize = out.len();
        while k > 0 && article_comes_before(by, &x, &out[k - 1])
            invariant
                k <= out@.len(),
                xv == x@,
                order == article_order(by),
                s == crate::readlater::article_views(out@),
                forall|m: int| k <= m < s.len() ==> order(xv, #[trigger] s[m]),
            decreases k,
        {
            assert(s[k - 1] == out@[k - 1]@);
            k -= 1;
        }
        proof {
            if k > 0 {
                assert(s[k - 1] == out@[k - 1]@);
            }
            lemma_put_at(s, xv, order, k as int);
        }
        out.insert(k, x);
        assert(crate::readlater::article_views(out@) =~= s.insert(k as int, xv));
        i += 1;
    }
    assert(all.take(i as int) =~= all);
    out
}

/// Whether a pair of texts comes before another: by the first, and else by the second.
pub open spec fn pair_before(
    a: (Seq<char>, Seq<char>),
    b: (Seq<char>, Seq<char>),
) -> bool {
    text_before(a.0, b.0) || (a.0 == b.0 && text_before(a.1, b.1))
}

/// The order of pairs of texts.
pub open spec fn pair_order() -> spec_fn((Seq<char>, Seq<char>), (Seq<char>, Seq<char>)) -> bool {
    |a: (Seq<char>, Seq<char>), b: (Seq<char>, Seq<char>)| pair_before(a, b)
}

/// Pairs of texts are ordered.
pub proof fn law_pairs_are_ordered()
    ensures
        is_order(pair_order()),
{
    let f = pair_order();
    assert forall|a: (Seq<char>, Seq<char>), b: (Seq<char>, Seq<char>)| #[trigger]
        f(a, b) implies !f(b, a) by {
        lemma_text_order(a.0, b.0, a.0);
        lemma_text_order(a.1, b.1, a.1);
        lemma_text_order(a.0, a.0, a.0);
    }
    assert forall|
        a: (Seq<char>, Seq<char>),
        b: (Seq<char>, Seq<char>),
        c: (Seq<char>, Seq<char>),
    |
        !(#[trigger] f(a, b)) && !(#[trigger] f(b, c)) implies !f(a, c) by {
        lemma_text_order(a.0, b.0, c.0);
        lemma_text_order(a.0, c.0, b.0);
        lemma_text_order(b.0, a.0, c.0);
        lemma_text_order(c.0, b.0, a.0);
        lemma_text_order(a.1, b.1, c.1);
        lemma_text_order(b.0, c.0, a.0);
    }
}

/// The texts of pairs of strings.
pub open spec fn string_pairs(v: Seq<(String, String)>) -> Seq<(Seq<char>, Seq<char>)> {
    v.map_values(|p: (String, String)| (p.0@, p.1@))
}

fn pair_comes_before(a: &(String, String), b: &(String, String)) -> (r: bool)
    ensures
        r == pair_before((a.0@, a.1@), (b.0@, b.1@)),
{
    comes_before(a.0.as_str(), b.0.as_str()) || (crate::text::same(a.0.as_str(), b.0.as_str())
        && comes_before(a.1.as_str(), b.1.as_str()))
}

/// Add a pair to pairs that are in order.
pub fn put_pair(out: &mut Vec<(String, String)>, x: (String, String))
    ensures
        string_pairs(final(out)@) == put(string_pairs(old(out)@), (x.0@, x.1@), pair_order()),
{
    let ghost xv = (x.0@, x.1@);
    let ghost s = string_pairs(out@);
    let ghost order = pair_order();
    let mut k: usize = out.len();
    while k > 0 && pair_comes_before(&x, &out[k - 1])
        invariant
            k <= out@.len(),
            xv == (x.0@, x.1@),
            order == pair_order(),
            s == string_pairs(out@),
            forall|m: int| k <= m < s.len() ==> order(xv, #[trigger] s[m]),
        decreases k,
    {
        assert(s[k - 1] == (out@[k - 1].0@, out@[k - 1].1@));
        k -= 1;
    }
    proof {
        if k > 0 {
            assert(s[k - 1] == (out@[k - 1].0@, out@[k - 1].1@));
        }
        lemma_put_at(s, xv, order, k as int);
    }
    out.insert(k, x);
    assert(string_pairs(out@) =~= s.insert(k as int, xv));
}

/// What is in order already stays as it is: in particular, of two that are alike the one that came
/// first stays first.
pub proof fn law_sorting_leaves_what_is_in_order<A>(s: Seq<A>, before: spec_fn(A, A) -> bool)
    requires
        in_order(s, before),
    ensures
        sorted_by(s, before) == s,
    decreases s.len(),
{
    if s.len() == 0 {
        assert(sorted_by(s, before) =~= s);
    } else {
        let rest = s.drop_last();
        assert(in_order(rest, before)) by {
            assert forall|i: int, j: int| 0 <= i < j < rest.len() implies !before(
                #[trigger] rest[j],
                #[trigger] rest[i],
            ) by {
                assert(!before(s[j], s[i]));
            }
        }
        law_sorting_leaves_what_is_in_order(rest, before);
        if rest.len() > 0 {
            assert(!before(s[s.len() - 1], s[s.len() - 2]));
            assert(rest.last() == s[s.len() - 2]);
        }
        assert(rest.push(s.last()) =~= s);
    }
}

/// Texts are in the order of their first difference; a text comes before every longer one that
/// begins with it.
pub proof fn law_texts_are_in_the_order_of_their_first_difference(
    common: Seq<char>,
    a: char,
    b: char,
    rest_a: Seq<char>,
    rest_b: Seq<char>,
)
    ensures
        a < b ==> text_before(common + seq![a] + rest_a, common + seq![b] + rest_b),
        a < b ==> !text_before(common + seq![b] + rest_b, common + seq![a] + rest_a),
        text_before(common, common + seq![a] + rest_a),
        !text_before(common + seq![a] + rest_a, common),
        !text_before(common, common),
    decreases common.len(),
{
    let x = common + seq![a] + rest_a;
    let y = common + seq![b] + rest_b;
    if common.len() == 0 {
        assert(x[0] == a && y[0] == b);
    } else {
        law_texts_are_in_the_order_of_their_first_difference(common.skip(1), a, b, rest_a, rest_b);
        assert(x[0] == common[0] && y[0] == common[0]);
        assert(x.skip(1) =~= common.skip(1) + seq![a] + rest_a);
        assert(y.skip(1) =~= common.skip(1) + seq![b] + rest_b);
    }
}

/// By time the newest comes first, by title the first letter, and by reading time the longest, with
/// those that tell none at the end.
pub proof fn law_what_comes_first(
    a: crate::readlater::ArticleView,
    b: crate::readlater::ArticleView,
)
    ensures
        a.added_at.seconds > b.added_at.seconds ==> article_before(ArticleSortBy::AddedAt, a, b)
            && !article_before(ArticleSortBy::AddedAt, b, a),
        a.updated_at.seconds > b.updated_at.seconds ==> article_before(
            ArticleSortBy::UpdatedAt,
            a,
            b,
        ) && !article_before(ArticleSortBy::UpdatedAt, b, a),
        a.title.len() > 0 && b.title.len() > 0 && a.title[0] < b.title[0] ==> article_before(
            ArticleSortBy::Title,
            a,
            b,
        ) && !article_before(ArticleSortBy::Title, b, a),
        a.reading_time_minutes is Some && b.reading_time_minutes is Some
            && a.reading_time_minutes->0 > b.reading_time_minutes->0 ==> article_before(
            ArticleSortBy::ReadingTime,
            a,
            b,
        ) && !article_before(ArticleSortBy::ReadingTime, b, a),
        a.reading_time_minutes is Some && b.reading_time_minutes is None ==> article_before(
            ArticleSortBy::ReadingTime,
            a,
            b,
        ) && !article_before(ArticleSortBy::ReadingTime, b, a),
{
}

} // verus!
