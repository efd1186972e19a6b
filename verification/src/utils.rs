use vstd::prelude::*;
use vstd::string::*;

use crate::components::search_input::{SearchModel, State};
use crate::{FileEntry, RecomplileDependency};

verus! {

/// Collects the characters of a string into a vector, in order.
pub fn chars_of(s: &str) -> (r: Vec<char>)
    ensures
        r@ == s@,
{
    let n = s.unicode_len();
    let mut r: Vec<char> = Vec::new();
    let mut i: usize = 0;
    while i < n
        invariant
            n == s@.len(),
            i <= n,
            r@ == s@.subrange(0, i as int),
        decreases n - i,
    {
        r.push(s.get_char(i));
        i = i + 1;
        proof {
            assert(r@ =~= s@.subrange(0, i as int));
        }
    }
    proof {
        assert(r@ =~= s@);
    }
    r
}

/// Relies on `<String as FromIterator<char>>::from_iter` (through
/// `Iterator::collect`): the resulting string consists of exactly the
/// characters handed in, in order.
#[verifier::external_body]
pub fn string_of(v: &Vec<char>) -> (r: String)
    ensures
        r@ == v@,
{
    v.iter().collect()
}

/// The score the fuzzy matcher assigns to `choice` against `pattern`,
/// if they match at all. The scoring algorithm is the matcher's own; all
/// this library relies on is that it is a function of the two strings.
pub uninterp spec fn fuzzy_score(choice: Seq<char>, pattern: Seq<char>) -> Option<i64>;

/// Relies on `SkimMatcherV2::fuzzy_match` of the fuzzy-matcher crate, in
/// its default configuration: the returned score depends on the two
/// strings alone.
#[verifier::external_body]
fn fuzzy_match_score(choice: &str, pattern: &str) -> (r: Option<i64>)
    ensures
        r == fuzzy_score(choice@, pattern@),
{
    let matcher = fuzzy_matcher::skim::SkimMatcherV2::default();
    fuzzy_matcher::FuzzyMatcher::fuzzy_match(&matcher, choice, pattern)
}

/// Items a search can filter: anything identified by a path.
pub trait PathKeyed: View + Sized {
    spec fn path_spec(&self) -> Seq<char>;

    fn path(&self) -> (r: &String)
        ensures
            r@ == self.path_spec(),
    ;

    fn duplicate(&self) -> (r: Self)
        ensures
            r@ == self@,
            r.path_spec() == self.path_spec(),
    ;
}

impl PathKeyed for FileEntry {
    open spec fn path_spec(&self) -> Seq<char> {
        self.path@
    }

    fn path(&self) -> (r: &String) {
        &self.path
    }

    fn duplicate(&self) -> (r: Self) {
        self.clone()
    }
}

impl PathKeyed for RecomplileDependency {
    open spec fn path_spec(&self) -> Seq<char> {
        self.path@
    }

    fn path(&self) -> (r: &String) {
        &self.path
    }

    fn duplicate(&self) -> (r: Self) {
        self.clone()
    }
}

/// The positively scored entries among the first `n` paths, as
/// (index, score) pairs in index order.
pub open spec fn spec_candidates_up_to(
    paths: Seq<Seq<char>>,
    term: Seq<char>,
    n: int,
) -> Seq<(int, i64)>
    decreases n,
{
    if n <= 0 {
        Seq::empty()
    } else {
        let prev = spec_candidates_up_to(paths, term, n - 1);
        match fuzzy_score(paths[n - 1], term) {
            Option::Some(score) => if score > 0 {
                prev.push((n - 1, score))
            } else {
                prev
            },
            Option::None => prev,
        }
    }
}

/// Inserts one scored entry behind every entry that scores at least as
/// well, so that ranking stays stable for equal scores.
pub open spec fn spec_insert_ranked(x: (int, i64), s: Seq<(int, i64)>) -> Seq<(int, i64)>
    decreases s.len(),
{
    if s.len() == 0 {
        seq![x]
    } else if s[0].1 >= x.1 {
        seq![s[0]] + spec_insert_ranked(x, s.skip(1))
    } else {
        seq![x] + s
    }
}

/// Stable ranking by descending score: entries are inserted in their
/// original order, each behind all entries scoring at least as well.
pub open spec fn spec_rank(s: Seq<(int, i64)>) -> Seq<(int, i64)>
    decreases s.len(),
{
    if s.len() == 0 {
        Seq::empty()
    } else {
        spec_insert_ranked(s.last(), spec_rank(s.drop_last()))
    }
}

/// The indices of the filtered, ranked listing: every path the matcher
/// scores positively against `term`, best scores first, original order
/// for equal scores.
pub open spec fn spec_ranked_indices(paths: Seq<Seq<char>>, term: Seq<char>) -> Seq<int> {
    spec_rank(spec_candidates_up_to(paths, term, paths.len() as int)).map_values(
        |p: (int, i64)| p.0,
    )
}

/// What a search state keeps of a listing: everything while no query is
/// committed, the ranked matches under a committed query.
pub open spec fn spec_filter_indices(paths: Seq<Seq<char>>, search: SearchModel) -> Seq<int> {
    match search {
        SearchModel::Search(term) => spec_ranked_indices(paths, term),
        _ => Seq::new(paths.len(), |i: int| i),
    }
}

/// Every score of [`spec_insert_ranked`]'s result stays within a bound
/// that holds of the inserted pair and the existing ones.
proof fn lemma_insert_ranked_bound(x: (int, i64), s: Seq<(int, i64)>, b: i64)
    requires
        x.1 <= b,
        forall|k: int| 0 <= k < s.len() ==> (#[trigger] s[k]).1 <= b,
    ensures
        forall|k: int|
            0 <= k < spec_insert_ranked(x, s).len() ==> (#[trigger] spec_insert_ranked(x, s)[k]).1
                <= b,
    decreases s.len(),
{
    if s.len() == 0 {
    } else if s[0].1 >= x.1 {
        assert forall|k: int| 0 <= k < s.skip(1).len() implies (#[trigger] s.skip(1)[k]).1 <= b by {
            assert(s.skip(1)[k] == s[k + 1]);
        }
        lemma_insert_ranked_bound(x, s.skip(1), b);
        assert forall|k: int|
            0 <= k < spec_insert_ranked(x, s).len() implies (#[trigger] spec_insert_ranked(
            x,
            s,
        )[k]).1 <= b by {
            if k > 0 {
                assert(spec_insert_ranked(x, s)[k] == spec_insert_ranked(x, s.skip(1))[k - 1]);
            }
        }
    } else {
    }
}

/// Inserting into a descending sequence keeps it descending.
proof fn lemma_insert_ranked_sorted(x: (int, i64), s: Seq<(int, i64)>)
    requires
        forall|i: int, j: int| 0 <= i <= j < s.len() ==> (#[trigger] s[i]).1 >= (#[trigger] s[j]).1,
    ensures
        forall|i: int, j: int|
            0 <= i <= j < spec_insert_ranked(x, s).len() ==> (#[trigger] spec_insert_ranked(
                x,
                s,
            )[i]).1 >= (#[trigger] spec_insert_ranked(x, s)[j]).1,
    decreases s.len(),
{
    let r = spec_insert_ranked(x, s);
    if s.len() == 0 {
    } else if s[0].1 >= x.1 {
        let t = s.skip(1);
        assert forall|i: int, j: int|
            0 <= i <= j < t.len() implies (#[trigger] t[i]).1 >= (#[trigger] t[j]).1 by {
            assert(t[i] == s[i + 1]);
            assert(t[j] == s[j + 1]);
        }
        lemma_insert_ranked_sorted(x, t);
        assert forall|k: int| 0 <= k < t.len() implies (#[trigger] t[k]).1 <= s[0].1 by {
            assert(t[k] == s[k + 1]);
        }
        lemma_insert_ranked_bound(x, t, s[0].1);
        assert forall|i: int, j: int|
            0 <= i <= j < r.len() implies (#[trigger] r[i]).1 >= (#[trigger] r[j]).1 by {
            if i > 0 {
                assert(r[i] == spec_insert_ranked(x, t)[i - 1]);
                assert(r[j] == spec_insert_ranked(x, t)[j - 1]);
            } else if j > 0 {
                assert(r[j] == spec_insert_ranked(x, t)[j - 1]);
            }
        }
    } else {
        assert forall|i: int, j: int|
            0 <= i <= j < r.len() implies (#[trigger] r[i]).1 >= (#[trigger] r[j]).1 by {
            if i > 0 {
                assert(r[i] == s[i - 1]);
                assert(r[j] == s[j - 1]);
            } else if j > 0 {
                assert(r[j] == s[j - 1]);
                assert(s[0].1 < x.1);
                assert(s[0].1 >= s[j - 1].1);
            }
        }
    }
}

/// The ranking law: along the ranked listing, scores never increase.
pub proof fn lemma_rank_sorted(s: Seq<(int, i64)>)
    ensures
        forall|i: int, j: int|
            0 <= i <= j < spec_rank(s).len() ==> (#[trigger] spec_rank(s)[i]).1 >= (
            #[trigger] spec_rank(s)[j]).1,
    decreases s.len(),
{
    if s.len() > 0 {
        lemma_rank_sorted(s.drop_last());
        lemma_insert_ranked_sorted(s.last(), spec_rank(s.drop_last()));
    }
}

/// Every pair produced by [`spec_insert_ranked`] comes from the inserted
/// pair or the existing ones.
proof fn lemma_insert_ranked_range(x: (int, i64), s: Seq<(int, i64)>, lo: int, hi: int)
    requires
        lo <= x.0 < hi,
        forall|k: int| 0 <= k < s.len() ==> lo <= (#[trigger] s[k]).0 < hi,
    ensures
        spec_insert_ranked(x, s).len() == s.len() + 1,
        forall|k: int|
            0 <= k < spec_insert_ranked(x, s).len() ==> lo <= (#[trigger] spec_insert_ranked(
                x,
                s,
            )[k]).0 < hi,
    decreases s.len(),
{
    if s.len() == 0 {
    } else if s[0].1 >= x.1 {
        assert forall|k: int| 0 <= k < s.skip(1).len() implies lo <= (#[trigger] s.skip(1)[k]).0
            < hi by {
            assert(s.skip(1)[k] == s[k + 1]);
        }
        lemma_insert_ranked_range(x, s.skip(1), lo, hi);
        assert forall|k: int|
            0 <= k < spec_insert_ranked(x, s).len() implies lo <= (#[trigger] spec_insert_ranked(
            x,
            s,
        )[k]).0 < hi by {
            if k > 0 {
                assert(spec_insert_ranked(x, s)[k] == spec_insert_ranked(x, s.skip(1))[k - 1]);
            }
        }
    } else {
    }
}

/// Every pair of the ranking comes from the candidates.
proof fn lemma_rank_range(s: Seq<(int, i64)>, lo: int, hi: int)
    requires
        forall|k: int| 0 <= k < s.len() ==> lo <= (#[trigger] s[k]).0 < hi,
    ensures
        spec_rank(s).len() == s.len(),
        forall|k: int| 0 <= k < spec_rank(s).len() ==> lo <= (#[trigger] spec_rank(s)[k]).0 < hi,
    decreases s.len(),
{
    if s.len() > 0 {
        assert forall|k: int|
            0 <= k < s.drop_last().len() implies lo <= (#[trigger] s.drop_last()[k]).0 < hi by {
            assert(s.drop_last()[k] == s[k]);
        }
        lemma_rank_range(s.drop_last(), lo, hi);
        lemma_insert_ranked_range(s.last(), spec_rank(s.drop_last()), lo, hi);
    }
}

/// Candidate indices lie inside the listing.
proof fn lemma_candidates_range(paths: Seq<Seq<char>>, term: Seq<char>, n: int)
    requires
        n <= paths.len(),
    ensures
        forall|k: int|
            0 <= k < spec_candidates_up_to(paths, term, n).len() ==> 0 <= (
            #[trigger] spec_candidates_up_to(paths, term, n)[k]).0 < paths.len(),
    decreases n,
{
    if n > 0 {
        lemma_candidates_range(paths, term, n - 1);
        let prev = spec_candidates_up_to(paths, term, n - 1);
        let cur = spec_candidates_up_to(paths, term, n);
        assert forall|k: int| 0 <= k < cur.len() implies 0 <= (#[trigger] cur[k]).0
            < paths.len() by {
            if k < prev.len() {
                assert(cur[k] == prev[k]);
            }
        }
    }
}

/// Where a new entry is inserted: right before the first strictly lower
/// score.
proof fn lemma_insert_ranked_at(x: (int, i64), s: Seq<(int, i64)>, p: int)
    requires
        0 <= p <= s.len(),
        forall|k: int| 0 <= k < p ==> (#[trigger] s[k]).1 >= x.1,
        p < s.len() ==> s[p].1 < x.1,
    ensures
        spec_insert_ranked(x, s) == s.take(p) + seq![x] + s.skip(p),
    decreases p,
{
    if s.len() == 0 {
        assert(spec_insert_ranked(x, s) =~= s.take(p) + seq![x] + s.skip(p));
    } else if p == 0 {
        if s[0].1 >= x.1 {
            assert(false);
        }
        assert(spec_insert_ranked(x, s) =~= s.take(0) + seq![x] + s.skip(0));
    } else {
        assert(s[0].1 >= x.1);
        assert forall|k: int| 0 <= k < p - 1 implies (#[trigger] s.skip(1)[k]).1 >= x.1 by {
            assert(s.skip(1)[k] == s[k + 1]);
        }
        if p - 1 < s.skip(1).len() {
            assert(s.skip(1)[p - 1] == s[p as int]);
        }
        lemma_insert_ranked_at(x, s.skip(1), p - 1);
        assert(spec_insert_ranked(x, s) =~= s.take(p) + seq![x] + s.skip(p));
    }
}

/// The pieces of `s` between its slashes; a path without slashes is one
/// piece, and every slash separates two (possibly empty) pieces.
pub open spec fn split_slash(s: Seq<char>) -> Seq<Seq<char>>
    decreases s.len(),
{
    if s.len() == 0 {
        seq![Seq::<char>::empty()]
    } else {
        let rest = split_slash(s.skip(1));
        if s[0] == '/' {
            seq![Seq::<char>::empty()] + rest
        } else {
            seq![seq![s[0]] + rest[0]] + rest.skip(1)
        }
    }
}

/// How many trailing pieces fit: walking from the right, a piece is taken
/// while the ellipsis, the pieces taken so far, the separating slashes
/// and the new piece still fit within the width.
pub open spec fn spec_accept_count(parts: Seq<Seq<char>>, max: int, k: int, total: int) -> int
    decreases parts.len(),
{
    if parts.len() == 0 {
        k
    } else {
        let p = parts.last();
        if k + 3 + total + p.len() + 1 > max {
            k
        } else {
            spec_accept_count(parts.drop_last(), max, k + 1, total + p.len())
        }
    }
}

/// The pieces from `i` on, each preceded by a slash.
pub open spec fn spec_join_from(parts: Seq<Seq<char>>, i: int) -> Seq<char>
    decreases parts.len() - i,
{
    if i >= parts.len() {
        Seq::empty()
    } else {
        seq!['/'] + parts[i] + spec_join_from(parts, i + 1)
    }
}

/// A path compacted to a maximum width: unchanged when it already fits,
/// else an ellipsis followed by as many of its trailing pieces as fit.
pub open spec fn spec_compact(path: Seq<char>, max: int) -> Seq<char> {
    if path.len() <= max {
        path
    } else {
        let parts = split_slash(path);
        let k = spec_accept_count(parts, max, 0, 0);
        seq!['.', '.', '.'] + spec_join_from(parts, parts.len() - k)
    }
}

fn split_from(v: &Vec<char>, i: usize) -> (r: Vec<Vec<char>>)
    requires
        i <= v.len(),
    ensures
        r.deep_view() == split_slash(v@.skip(i as int)),
        r.len() >= 1,
    decreases v.len() - i,
{
    let ghost s = v@.skip(i as int);
    if i == v.len() {
        let mut r: Vec<Vec<char>> = Vec::new();
        r.push(Vec::new());
        proof {
            assert(s.len() == 0);
            assert(r.deep_view() =~~= split_slash(s));
        }
        r
    } else {
        let mut rest = split_from(v, i + 1);
        proof {
            assert(v@.skip(i as int + 1) =~= s.skip(1));
            assert(s[0] == v@[i as int]);
        }
        let c = v[i];
        if c == '/' {
            rest.insert(0, Vec::new());
            proof {
                assert(rest.deep_view() =~~= split_slash(s));
            }
            rest
        } else {
            let mut first = rest.remove(0);
            first.insert(0, c);
            rest.insert(0, first);
            proof {
                assert(rest.deep_view() =~~= split_slash(s));
            }
            rest
        }
    }
}

fn accept_from(parts: &Vec<Vec<char>>, maximum: usize, k: usize, total: usize, end: usize) -> (r:
    usize)
    requires
        end <= parts.len(),
        k as int == parts.len() - end,
        total <= maximum,
    ensures
        r as int == spec_accept_count(
            parts.deep_view().take(end as int),
            maximum as int,
            k as int,
            total as int,
        ),
        k <= r <= parts.len(),
    decreases end,
{
    let ghost pv = parts.deep_view();
    if end == 0 {
        proof {
            assert(pv.take(0) =~~= Seq::<Seq<char>>::empty());
        }
        k
    } else {
        let p_len = parts[end - 1].len();
        proof {
            assert(pv.take(end as int).last() =~~= pv[end as int - 1]);
            assert(pv[end as int - 1].len() == parts@[end as int - 1]@.len());
            assert(pv.take(end as int).drop_last() =~~= pv.take(end as int - 1));
        }
        let t: u128 = k as u128 + 3 + total as u128 + p_len as u128 + 1;
        if t > maximum as u128 {
            k
        } else {
            accept_from(parts, maximum, k + 1, total + p_len, end - 1)
        }
    }
}

fn push_join_from(out: &mut Vec<char>, parts: &Vec<Vec<char>>, i: usize)
    requires
        i <= parts.len(),
    ensures
        final(out)@ == old(out)@ + spec_join_from(parts.deep_view(), i as int),
    decreases parts.len() - i,
{
    if i == parts.len() {
        proof {
            assert(out@ =~= old(out)@ + spec_join_from(parts.deep_view(), i as int));
        }
    } else {
        out.push('/');
        let ghost mid = out@;
        let mut j: usize = 0;
        while j < parts[i as usize].len()
            invariant
                i < parts.len(),
                j <= parts@[i as int]@.len(),
                out@ == mid + parts@[i as int]@.take(j as int),
            decreases parts@[i as int]@.len() - j,
        {
            out.push(parts[i][j]);
            j = j + 1;
            proof {
                assert(out@ =~= mid + parts@[i as int]@.take(j as int));
            }
        }
        proof {
            assert(parts@[i as int]@.take(parts@[i as int]@.len() as int) =~= parts@[i as int]@);
        }
        push_join_from(out, parts, i + 1);
        proof {
            assert(parts.deep_view()[i as int] == parts@[i as int]@);
            assert(out@ =~= old(out)@ + spec_join_from(parts.deep_view(), i as int));
        }
    }
}

/// Compacts a file path to a maximum width: a path that fits is returned
/// whole; a longer one is truncated to an ellipsis followed by as many of
/// its trailing pieces as fit.
pub fn compact_file_path(file_path: &str, maximum: usize) -> (r: String)
    ensures
        r@ == spec_compact(file_path@, maximum as int),
{
    let v = chars_of(file_path);
    if v.len() <= maximum {
        return string_of(&v);
    }
    let parts = split_from(&v, 0);
    proof {
        assert(v@.skip(0) =~= file_path@);
    }
    let k = accept_from(&parts, maximum, 0, 0, parts.len());
    let mut out: Vec<char> = Vec::new();
    out.push('.');
    out.push('.');
    out.push('.');
    proof {
        assert(parts.deep_view().take(parts.len() as int) =~~= parts.deep_view());
        assert(out@ =~= seq!['.', '.', '.']);
    }
    push_join_from(&mut out, &parts, parts.len() - k);
    proof {
        assert(out@ =~= spec_compact(file_path@, maximum as int));
    }
    string_of(&out)
}

/// Keeps the entries a committed search matches, ranked by the matcher's
/// score, best first, original order on ties; with no committed search
/// the listing is kept whole.
pub fn filter_files_list<T: PathKeyed>(files: &Vec<T>, search_term: &State) -> (r: Vec<T>)
    ensures
        ({
            let paths = files@.map_values(|t: T| t.path_spec());
            let idxs = spec_filter_indices(paths, search_term@);
            &&& r@.len() == idxs.len()
            &&& forall|i: int|
                0 <= i < idxs.len() ==> 0 <= #[trigger] idxs[i] < files@.len() && r@[i]@ == files@[
                    idxs[i]
                ]@ && r@[i].path_spec() == files@[idxs[i]].path_spec()
        }),
{
    let ghost paths = files@.map_values(|t: T| t.path_spec());
    match search_term {
        State::Search(term) => {
            // score every path, keeping the positive matches in order
            let mut cands: Vec<(usize, i64)> = Vec::new();
            let mut i: usize = 0;
            proof {
                assert(cands@.map_values(|c: (usize, i64)| (c.0 as int, c.1))
                    =~= spec_candidates_up_to(paths, term@, 0));
            }
            while i < files.len()
                invariant
                    i <= files.len(),
                    paths == files@.map_values(|t: T| t.path_spec()),
                    cands@.map_values(|c: (usize, i64)| (c.0 as int, c.1))
                        == spec_candidates_up_to(paths, term@, i as int),
                    forall|k: int| 0 <= k < cands@.len() ==> (#[trigger] cands@[k]).0 < files@.len(),
                decreases files.len() - i,
            {
                let score = fuzzy_match_score(files[i].path().as_str(), term.as_str());
                proof {
                    assert(paths[i as int] == files@[i as int].path_spec());
                }
                match score {
                    Some(sc) => {
                        if sc > 0 {
                            cands.push((i, sc));
                        }
                    },
                    None => {},
                }
                i = i + 1;
                proof {
                    assert(cands@.map_values(|c: (usize, i64)| (c.0 as int, c.1))
                        =~= spec_candidates_up_to(paths, term@, i as int));
                }
            }
            let ghost all_cands = spec_candidates_up_to(paths, term@, paths.len() as int);
            // rank by descending score, stably
            let mut sorted: Vec<(usize, i64)> = Vec::new();
            let mut j: usize = 0;
            proof {
                assert(sorted@.map_values(|c: (usize, i64)| (c.0 as int, c.1)) =~= spec_rank(
                    all_cands.take(0),
                ));
            }
            while j < cands.len()
                invariant
                    j <= cands.len(),
                    all_cands == cands@.map_values(|c: (usize, i64)| (c.0 as int, c.1)),
                    sorted@.map_values(|c: (usize, i64)| (c.0 as int, c.1)) == spec_rank(
                        all_cands.take(j as int),
                    ),
                    sorted@.len() == j,
                    forall|k: int| 0 <= k < cands@.len() ==> (#[trigger] cands@[k]).0 < files@.len(),
                    forall|k: int|
                        0 <= k < sorted@.len() ==> (#[trigger] sorted@[k]).0 < files@.len(),
                decreases cands.len() - j,
            {
                let c = cands[j];
                let mut p: usize = 0;
                while p < sorted.len() && sorted[p].1 >= c.1
                    invariant
                        p <= sorted.len(),
                        forall|k: int| 0 <= k < p ==> (#[trigger] sorted@[k]).1 >= c.1,
                    decreases sorted.len() - p,
                {
                    p = p + 1;
                }
                let ghost sorted_before = sorted@;
                sorted.insert(p, c);
                j = j + 1;
                proof {
                    let sm = sorted_before.map_values(|cc: (usize, i64)| (cc.0 as int, cc.1));
                    let cm = (c.0 as int, c.1);
                    assert forall|k: int| 0 <= k < p implies (#[trigger] sm[k]).1 >= cm.1 by {
                        assert(sm[k].1 == sorted_before[k].1);
                    }
                    if (p as int) < sm.len() {
                        assert(sm[p as int].1 == sorted_before[p as int].1);
                    }
                    lemma_insert_ranked_at(cm, sm, p as int);
                    assert(all_cands.take(j as int).drop_last() =~= all_cands.take(j as int - 1));
                    assert(all_cands.take(j as int).last() == cm);
                    assert(sorted@.map_values(|cc: (usize, i64)| (cc.0 as int, cc.1)) =~= sm.take(
                        p as int,
                    ) + seq![cm] + sm.skip(p as int));
                }
            }
            proof {
                assert(all_cands.take(cands@.len() as int) =~= all_cands);
            }
            // hand back the files in ranked order
            let mut out: Vec<T> = Vec::new();
            let mut k: usize = 0;
            while k < sorted.len()
                invariant
                    k <= sorted.len(),
                    paths == files@.map_values(|t: T| t.path_spec()),
                    sorted@.map_values(|c: (usize, i64)| (c.0 as int, c.1)) == spec_rank(all_cands),
                    forall|m: int|
                        0 <= m < sorted@.len() ==> (#[trigger] sorted@[m]).0 < files@.len(),
                    out@.len() == k,
                    forall|m: int|
                        0 <= m < k ==> (#[trigger] out@[m])@ == files@[sorted@[m].0 as int]@
                            && out@[m].path_spec() == files@[sorted@[m].0 as int].path_spec(),
                decreases sorted.len() - k,
            {
                let ix = sorted[k].0;
                out.push(files[ix].duplicate());
                k = k + 1;
            }
            proof {
                let idxs = spec_filter_indices(paths, search_term@);
                let ranked = spec_rank(all_cands);
                assert(idxs == ranked.map_values(|p: (int, i64)| p.0));
                assert(ranked == sorted@.map_values(|c: (usize, i64)| (c.0 as int, c.1)));
                lemma_candidates_range(paths, term@, paths.len() as int);
                lemma_rank_range(all_cands, 0, paths.len() as int);
                assert forall|i2: int|
                    0 <= i2 < idxs.len() implies 0 <= #[trigger] idxs[i2] < files@.len() && out@[
                    i2
                ]@ == files@[idxs[i2]]@ && out@[i2].path_spec() == files@[
                    idxs[i2]
                ].path_spec() by {
                    assert(idxs[i2] == ranked[i2].0);
                    assert(ranked[i2] == (sorted@[i2].0 as int, sorted@[i2].1));
                }
            }
            out
        },
        _ => {
            let mut out: Vec<T> = Vec::new();
            let mut i: usize = 0;
            while i < files.len()
                invariant
                    i <= files.len(),
                    out@.len() == i,
                    forall|m: int|
                        0 <= m < i ==> (#[trigger] out@[m])@ == files@[m]@ && out@[m].path_spec()
                            == files@[m].path_spec(),
                decreases files.len() - i,
            {
                out.push(files[i].duplicate());
                i = i + 1;
            }
            proof {
                let idxs = spec_filter_indices(paths, search_term@);
                assert(idxs.len() == paths.len());
                assert forall|m: int| 0 <= m < idxs.len() implies 0 <= #[trigger] idxs[m]
                    < files@.len() && out@[m]@ == files@[idxs[m]]@ && out@[m].path_spec()
                    == files@[idxs[m]].path_spec() by {
                    assert(idxs[m] == m);
                }
            }
            out
        },
    }
}

} // verus!
