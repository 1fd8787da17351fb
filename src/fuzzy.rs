use vstd::prelude::*;
use fuzzy_matcher::FuzzyMatcher;
use fuzzy_matcher::skim::SkimMatcherV2;

verus! {

#[verifier::external_type_specification]
#[verifier::external_body]
pub struct ExSkimMatcherV2(SkimMatcherV2);

/// The score that a default skim matcher gives `choice` for `pattern`:
/// `None` when the pattern is not a fuzzy subsequence of the choice.
pub uninterp spec fn skim_score(choice: Seq<char>, pattern: Seq<char>) -> Option<i64>;

/// Relies on `SkimMatcherV2::default`: a matcher with the default scoring and smart case.
#[verifier::external_body]
fn default_skim() -> SkimMatcherV2 {
    SkimMatcherV2::default()
}

/// The code that ASCII case folding gives `c`: capitals map to small letters.
pub open spec fn ascii_folded(c: char) -> u32 {
    if 65 <= c as u32 <= 90 {
        (c as u32 + 32) as u32
    } else {
        c as u32
    }
}

pub open spec fn chars_match(c: char, p: char, case_sensitive: bool) -> bool {
    if case_sensitive {
        c == p
    } else {
        ascii_folded(c) == ascii_folded(p)
    }
}

pub open spec fn has_ascii_upper(p: Seq<char>) -> bool {
    exists|k: int| 0 <= k < p.len() && 65 <= #[trigger] (p[k] as u32) <= 90
}

/// Whether the characters of `pattern` occur in `choice` in order, not
/// necessarily next to each other.
pub open spec fn is_subsequence(choice: Seq<char>, pattern: Seq<char>, case_sensitive: bool) -> bool
    decreases choice.len(),
{
    if pattern.len() == 0 {
        true
    } else if choice.len() == 0 {
        false
    } else if chars_match(choice[0], pattern[0], case_sensitive) {
        is_subsequence(choice.drop_first(), pattern.drop_first(), case_sensitive)
    } else {
        is_subsequence(choice.drop_first(), pattern, case_sensitive)
    }
}

/// Whether a default skim matcher scores `choice` for `pattern`: case matters
/// only when the pattern holds an ASCII capital.
pub open spec fn skim_matches(choice: Seq<char>, pattern: Seq<char>) -> bool {
    pattern.len() == 0 || is_subsequence(choice, pattern, has_ascii_upper(pattern))
}

/// Relies on `FuzzyMatcher::fuzzy_match` of `SkimMatcherV2`: its result depends on
/// the two strings alone, for the default matcher that `Matcher::new` builds; an
/// empty pattern scores 0, and otherwise there is a score exactly when the
/// pattern is a fuzzy subsequence of the choice.
#[verifier::external_body]
fn skim_fuzzy_match(m: &Matcher, choice: &str, pattern: &str) -> (r: Option<i64>)
    ensures
        r == skim_score(choice@, pattern@),
        pattern@.len() == 0 ==> r == Some(0i64),
        r is Some <==> skim_matches(choice@, pattern@),
{
    m.matcher.fuzzy_match(choice, pattern)
}

/// Inserts `x` before the first entry that scores strictly less than it, so
/// that entries of equal score keep the order in which they were inserted.
pub open spec fn insert_desc(s: Seq<(i64, Seq<char>)>, x: (i64, Seq<char>)) -> Seq<(i64, Seq<char>)>
    decreases s.len(),
{
    if s.len() == 0 {
        seq![x]
    } else if s[0].0 >= x.0 {
        seq![s[0]].add(insert_desc(s.drop_first(), x))
    } else {
        seq![x].add(s)
    }
}

/// The scored items, best first, ties in the order of the items; unscored items left out.
pub open spec fn ranked(scores: Seq<Option<i64>>, items: Seq<Seq<char>>) -> Seq<(i64, Seq<char>)>
    decreases scores.len(),
{
    if scores.len() == 0 {
        Seq::empty()
    } else {
        let rest = ranked(scores.drop_last(), items.drop_last());
        match scores.last() {
            Some(s) => insert_desc(rest, (s, items.last())),
            None => rest,
        }
    }
}

/// The skim score of each item for `query`.
pub open spec fn scores_for(query: Seq<char>, items: Seq<Seq<char>>) -> Seq<Option<i64>> {
    items.map_values(|c: Seq<char>| skim_score(c, query))
}

/// The ranked matches of `query` among `items`.
pub open spec fn ranked_matches(query: Seq<char>, items: Seq<Seq<char>>) -> Seq<(i64, Seq<char>)> {
    ranked(scores_for(query, items), items)
}

pub open spec fn strings_view(v: Seq<String>) -> Seq<Seq<char>> {
    v.map_values(|s: String| s@)
}

pub open spec fn pairs_view(v: Seq<(i64, String)>) -> Seq<(i64, Seq<char>)> {
    v.map_values(|p: (i64, String)| (p.0, p.1@))
}

pub open spec fn names(r: Seq<(i64, Seq<char>)>) -> Seq<Seq<char>> {
    r.map_values(|p: (i64, Seq<char>)| p.1)
}

pub open spec fn sorted_desc(s: Seq<(i64, Seq<char>)>) -> bool {
    forall|i: int, j: int| 0 <= i < j < s.len() ==> s[i].0 >= s[j].0
}

/// The result list of a session: every topic for an empty query, else the ranked matches.
pub open spec fn results_for(query: Seq<char>, topics: Seq<Seq<char>>) -> Seq<Seq<char>> {
    if query.len() == 0 {
        topics
    } else {
        names(ranked_matches(query, topics))
    }
}

/// The cursor after the result list changed to length `len`: none on an empty
/// list, the last index when the old one falls off the end, else unchanged.
pub open spec fn reclamp(sel: Option<usize>, len: nat) -> Option<usize> {
    if len == 0 {
        None
    } else {
        let c = match sel {
            Some(i) => i,
            None => 0,
        };
        if c >= len {
            Some((len - 1) as usize)
        } else {
            Some(c)
        }
    }
}

/// The index reached from `cur` by `offset` steps with wrap-around.
pub open spec fn wrap_index(cur: int, offset: int, len: int) -> int {
    (cur + offset) % len
}

proof fn lemma_insert_desc_at(s: Seq<(i64, Seq<char>)>, x: (i64, Seq<char>), p: int)
    requires
        0 <= p <= s.len(),
        forall|k: int| 0 <= k < p ==> s[k].0 >= x.0,
        p < s.len() ==> s[p].0 < x.0,
    ensures
        insert_desc(s, x) == s.insert(p, x),
    decreases s.len(),
{
    if s.len() == 0 {
        assert(s.insert(p, x) =~= seq![x]);
    } else if s[0].0 >= x.0 {
        let t = s.drop_first();
        lemma_insert_desc_at(t, x, p - 1);
        assert(seq![s[0]].add(t.insert(p - 1, x)) =~= s.insert(p, x));
    } else {
        assert(seq![x].add(s) =~= s.insert(p, x));
    }
}

proof fn lemma_insert_desc_sorted(s: Seq<(i64, Seq<char>)>, x: (i64, Seq<char>))
    requires
        sorted_desc(s),
    ensures
        sorted_desc(insert_desc(s, x)),
        insert_desc(s, x).len() == s.len() + 1,
        insert_desc(s, x)[0] == (if s.len() > 0 && s[0].0 >= x.0 { s[0] } else { x }),
    decreases s.len(),
{
    if s.len() > 0 && s[0].0 >= x.0 {
        let t = s.drop_first();
        lemma_insert_desc_sorted(t, x);
        let r = insert_desc(s, x);
        let rest = insert_desc(t, x);
        assert(r =~= seq![s[0]].add(rest));
        assert forall|i: int, j: int| 0 <= i < j < r.len() implies r[i].0 >= r[j].0 by {
            if i == 0 {
                assert(r[j] == rest[j - 1]);
                if j - 1 > 0 {
                    assert(rest[0].0 >= rest[j - 1].0);
                }
                if t.len() > 0 {
                    assert(s[0].0 >= s[1].0);
                }
            } else {
                assert(r[i] == rest[i - 1] && r[j] == rest[j - 1]);
            }
        }
    } else if s.len() > 0 {
        let r = insert_desc(s, x);
        assert forall|i: int, j: int| 0 <= i < j < r.len() implies r[i].0 >= r[j].0 by {
            if i == 0 {
                assert(s[0].0 >= s[j - 1].0 || j - 1 == 0);
            } else {
                assert(r[i] == s[i - 1] && r[j] == s[j - 1]);
            }
        }
    }
}

proof fn lemma_insert_desc_all(s: Seq<(i64, Seq<char>)>, x: (i64, Seq<char>), p: spec_fn((i64, Seq<char>)) -> bool)
    requires
        forall|k: int| 0 <= k < s.len() ==> p(s[k]),
        p(x),
    ensures
        forall|k: int| 0 <= k < insert_desc(s, x).len() ==> p(#[trigger] insert_desc(s, x)[k]),
    decreases s.len(),
{
    if s.len() > 0 && s[0].0 >= x.0 {
        let t = s.drop_first();
        lemma_insert_desc_all(t, x, p);
        assert(insert_desc(s, x) =~= seq![s[0]].add(insert_desc(t, x)));
    }
}

proof fn lemma_ranked_all(scores: Seq<Option<i64>>, items: Seq<Seq<char>>, p: spec_fn((i64, Seq<char>)) -> bool)
    requires
        scores.len() == items.len(),
        forall|j: int| 0 <= j < scores.len() && (#[trigger] scores[j]) is Some ==> p((scores[j].unwrap(), items[j])),
    ensures
        forall|k: int| 0 <= k < ranked(scores, items).len() ==> p(#[trigger] ranked(scores, items)[k]),
    decreases scores.len(),
{
    if scores.len() > 0 {
        let (s0, i0) = (scores.drop_last(), items.drop_last());
        assert forall|j: int| 0 <= j < s0.len() && (#[trigger] s0[j]) is Some implies p((s0[j].unwrap(), i0[j])) by {
            assert(s0[j] == scores[j] && i0[j] == items[j]);
        }
        lemma_ranked_all(s0, i0, p);
        if let Some(x) = scores.last() {
            lemma_insert_desc_all(ranked(s0, i0), (x, items.last()), p);
        }
    }
}

proof fn lemma_ranked_sorted(scores: Seq<Option<i64>>, items: Seq<Seq<char>>)
    ensures
        sorted_desc(ranked(scores, items)),
    decreases scores.len(),
{
    if scores.len() > 0 {
        lemma_ranked_sorted(scores.drop_last(), items.drop_last());
        if let Some(s) = scores.last() {
            lemma_insert_desc_sorted(ranked(scores.drop_last(), items.drop_last()), (s, items.last()));
        }
    }
}

proof fn lemma_ranked_scored(query: Seq<char>, items: Seq<Seq<char>>)
    ensures
        forall|k: int| 0 <= k < ranked_matches(query, items).len()
            ==> skim_score((#[trigger] ranked_matches(query, items)[k]).1, query)
                == Some(ranked_matches(query, items)[k].0),
    decreases items.len(),
{
    if items.len() > 0 {
        let init = items.drop_last();
        lemma_ranked_scored(query, init);
        assert(scores_for(query, items).drop_last() =~= scores_for(query, init));
        let p = |e: (i64, Seq<char>)| skim_score(e.1, query) == Some(e.0);
        let rest = ranked_matches(query, init);
        assert forall|k: int| 0 <= k < rest.len() implies p(rest[k]) by {}
        if let Some(s) = scores_for(query, items).last() {
            lemma_insert_desc_all(rest, (s, items.last()), p);
        }
    }
}

/// Every topic that a non-empty query leaves in the result list scores under
/// that query, with the score it is ranked by.
pub proof fn lemma_results_all_match(query: Seq<char>, topics: Seq<Seq<char>>)
    requires
        query.len() > 0,
    ensures
        forall|k: int| 0 <= k < results_for(query, topics).len()
            ==> (#[trigger] skim_score(results_for(query, topics)[k], query)) is Some,
{
    lemma_ranked_scored(query, topics);
    let r = ranked_matches(query, topics);
    assert forall|k: int| 0 <= k < results_for(query, topics).len()
        implies (#[trigger] skim_score(results_for(query, topics)[k], query)) is Some by {
        assert(results_for(query, topics)[k] == r[k].1);
    }
}

/// For a non-empty query the result list never rises in score: each topic
/// scores at least as high as the one after it.
pub proof fn lemma_results_sorted(query: Seq<char>, topics: Seq<Seq<char>>)
    requires
        query.len() > 0,
    ensures
        forall|k: int| 0 <= k < results_for(query, topics).len() - 1
            ==> (#[trigger] skim_score(results_for(query, topics)[k], query)).unwrap()
                >= skim_score(results_for(query, topics)[k + 1], query).unwrap(),
{
    let r = ranked_matches(query, topics);
    lemma_ranked_sorted(scores_for(query, topics), topics);
    lemma_ranked_scored(query, topics);
    assert forall|k: int| 0 <= k < results_for(query, topics).len() - 1
        implies (#[trigger] skim_score(results_for(query, topics)[k], query)).unwrap()
            >= skim_score(results_for(query, topics)[k + 1], query).unwrap() by {
        assert(results_for(query, topics)[k] == r[k].1);
        assert(results_for(query, topics)[k + 1] == r[k + 1].1);
        assert(skim_score(r[k].1, query) == Some(r[k].0));
        assert(skim_score(r[k + 1].1, query) == Some(r[k + 1].0));
    }
}

/// Moving the cursor by `k` and then by `len - k` brings it back where it was.
pub proof fn lemma_wrap_round_trip(cur: int, k: int, len: int)
    requires
        0 < len,
        0 <= cur < len,
    ensures
        wrap_index(wrap_index(cur, k, len), len - k, len) == cur,
{
    let a = (cur + k) % len;
    vstd::arithmetic::div_mod::lemma_fundamental_div_mod(cur + k, len);
    vstd::arithmetic::div_mod::lemma_fundamental_div_mod(a + len - k, len);
    vstd::arithmetic::div_mod::lemma_mod_multiples_vanish(-((cur + k) / len) + 1, cur, len);
    assert(a + len - k == cur + len * (1 - (cur + k) / len)) by (nonlinear_arith)
        requires a == cur + k - len * ((cur + k) / len);
    vstd::arithmetic::div_mod::lemma_small_mod(cur as nat, len as nat);
}

/// Ranks `items` by their scores: the scored ones, best first, ties in item order.
pub fn rank_by_scores(items: &[String], scores: &[Option<i64>]) -> (r: Vec<(i64, String)>)
    requires
        items@.len() == scores@.len(),
    ensures
        pairs_view(r@) == ranked(scores@, strings_view(items@)),
{
    let mut out: Vec<(i64, String)> = Vec::new();
    let n = items.len();
    let mut i: usize = 0;
    while i < n
        invariant
            n == items@.len(),
            n == scores@.len(),
            i <= n,
            pairs_view(out@) == ranked(scores@.take(i as int), strings_view(items@).take(i as int)),
        decreases n - i,
    {
        assert(scores@.take(i + 1).drop_last() =~= scores@.take(i as int));
        assert(strings_view(items@).take(i + 1).drop_last() =~= strings_view(items@).take(i as int));
        match scores[i] {
            Some(s) => {
                let mut p: usize = 0;
                while p < out.len() && out[p].0 >= s
                    invariant
                        p <= out@.len(),
                        forall|k: int| 0 <= k < p ==> out@[k].0 >= s,
                    decreases out@.len() - p,
                {
                    p = p + 1;
                }
                let x = (s, items[i].clone());
                proof {
                    lemma_insert_desc_at(pairs_view(out@), (s, items@[i as int]@), p as int);
                }
                out.insert(p, x);
                assert(pairs_view(out@) =~= ranked(scores@.take(i + 1), strings_view(items@).take(i + 1)));
            },
            None => {
                assert(pairs_view(out@) =~= ranked(scores@.take(i + 1), strings_view(items@).take(i + 1)));
            },
        }
        i = i + 1;
    }
    assert(scores@.take(n as int) =~= scores@);
    assert(strings_view(items@).take(n as int) =~= strings_view(items@));
    out
}

/// A fuzzy scorer over topic names.
pub struct Matcher {
    matcher: SkimMatcherV2,
}

impl Matcher {
    pub fn new() -> Self {
        Matcher { matcher: default_skim() }
    }

    /// The items that match `query`, with their scores, best first; items of
    /// equal score keep their order.
    pub fn match_items(&self, query: &str, items: &[String]) -> (r: Vec<(i64, String)>)
        ensures
            pairs_view(r@) == ranked_matches(query@, strings_view(items@)),
            forall|k: int| 0 <= k < r@.len() ==> skim_matches((#[trigger] r@[k]).1@, query@),
    {
        let mut scores: Vec<Option<i64>> = Vec::new();
        let mut i: usize = 0;
        while i < items.len()
            invariant
                i <= items@.len(),
                scores@ == scores_for(query@, strings_view(items@)).take(i as int),
                forall|j: int| 0 <= j < i ==> ((#[trigger] scores@[j]) is Some <==> skim_matches(items@[j]@, query@)),
            decreases items@.len() - i,
        {
            let s = skim_fuzzy_match(self, items[i].as_str(), query);
            scores.push(s);
            assert(scores@ =~= scores_for(query@, strings_view(items@)).take(i + 1));
            i = i + 1;
        }
        assert(scores@ =~= scores_for(query@, strings_view(items@)));
        let r = rank_by_scores(items, scores.as_slice());
        proof {
            let p = |e: (i64, Seq<char>)| skim_matches(e.1, query@);
            lemma_ranked_all(scores@, strings_view(items@), p);
            assert forall|k: int| 0 <= k < r@.len() implies skim_matches((#[trigger] r@[k]).1@, query@) by {
                assert(pairs_view(r@)[k].1 == r@[k].1@);
                assert(p(ranked(scores@, strings_view(items@))[k]));
            }
        }
        r
    }
}

/// The state of an open picker: the query, the result list and the cursor.
pub struct FuzzySearch {
    pub input: String,
    pub matcher: Matcher,
    pub matches: Vec<String>,
    pub selected: Option<usize>,
}

impl FuzzySearch {
    /// The cursor points into a non-empty result list, and is none on an empty one.
    pub open spec fn wf(&self) -> bool {
        &&& self.matches@.len() > 0 ==> (self.selected is Some && self.selected.unwrap() < self.matches@.len())
        &&& self.matches@.len() == 0 ==> self.selected is None
    }

    pub fn new() -> (r: Self)
        ensures
            r.input@.len() == 0,
            r.matches@.len() == 0,
            r.selected is None,
            r.wf(),
    {
        FuzzySearch { input: String::new(), matcher: Matcher::new(), matches: Vec::new(), selected: None }
    }

    /// Recomputes the result list for the current query over `available_topics`
    /// and re-clamps the cursor.
    pub fn update_matches(&mut self, available_topics: &Vec<String>)
        ensures
            final(self).input == old(self).input,
            strings_view(final(self).matches@) == results_for(old(self).input@, strings_view(available_topics@)),
            final(self).selected == reclamp(old(self).selected, final(self).matches@.len()),
            final(self).wf(),
            old(self).input@.len() > 0 ==> forall|k: int| 0 <= k < final(self).matches@.len()
                ==> skim_matches((#[trigger] final(self).matches@[k])@, old(self).input@),
    {
        let mut found: Vec<String> = Vec::new();
        let ghost want = results_for(self.input@, strings_view(available_topics@));
        if self.input.as_str().is_empty() {
            let mut i: usize = 0;
            while i < available_topics.len()
                invariant
                    i <= available_topics@.len(),
                    want == strings_view(available_topics@),
                    found@.len() == i,
                    forall|k: int| 0 <= k < i ==> found@[k]@ == want[k],
                decreases available_topics@.len() - i,
            {
                let t = available_topics[i].clone();
                found.push(t);
                i = i + 1;
            }
        } else {
            let ranked = self.matcher.match_items(self.input.as_str(), available_topics.as_slice());
            let mut i: usize = 0;
            while i < ranked.len()
                invariant
                    i <= ranked@.len(),
                    want == names(pairs_view(ranked@)),
                    forall|k: int| 0 <= k < ranked@.len() ==> skim_matches((#[trigger] ranked@[k]).1@, self.input@),
                    found@.len() == i,
                    forall|k: int| 0 <= k < i ==> found@[k]@ == want[k],
                decreases ranked@.len() - i,
            {
                let t = ranked[i].1.clone();
                found.push(t);
                i = i + 1;
            }
            assert forall|k: int| 0 <= k < found@.len() implies skim_matches((#[trigger] found@[k])@, self.input@) by {
                assert(names(pairs_view(ranked@))[k] == ranked@[k].1@);
            }
        }
        assert(strings_view(found@) =~= want);
        let len = found.len();
        self.matches = found;
        if len == 0 {
            self.selected = None;
        } else {
            let current = match self.selected {
                Some(c) => c,
                None => 0,
            };
            if current >= len {
                self.selected = Some(len - 1);
            } else {
                self.selected = Some(current);
            }
        }
    }

    /// The topic under the cursor, if any.
    pub fn get_selected(&self) -> (r: Option<&String>)
        ensures
            r == (match self.selected {
                Some(i) => if i < self.matches@.len() { Some(&self.matches@[i as int]) } else { None },
                None => None,
            }),
    {
        match self.selected {
            Some(i) => if i < self.matches.len() { Some(&self.matches[i]) } else { None },
            None => None,
        }
    }

    /// Moves the cursor by `offset`, wrapping around both ends; no-op on an empty list.
    pub fn move_selection(&mut self, offset: isize)
        requires
            old(self).wf(),
        ensures
            final(self).input == old(self).input,
            final(self).matches == old(self).matches,
            final(self).wf(),
            old(self).matches@.len() == 0 ==> final(self).selected == old(self).selected,
            old(self).matches@.len() > 0 ==> final(self).selected == Some(
                wrap_index(old(self).selected.unwrap() as int, offset as int, old(self).matches@.len() as int) as usize,
            ),
    {
        if self.matches.is_empty() {
            return;
        }
        let len = self.matches.len();
        let current = match self.selected {
            Some(c) => c,
            None => 0,
        };
        let magnitude: usize = if offset >= 0 { offset as usize } else { ((-(offset + 1)) as usize) + 1 };
        let r: usize = magnitude % len;
        let new_index: usize = if offset >= 0 {
            if r >= len - current {
                r - (len - current)
            } else {
                current + r
            }
        } else {
            if r <= current {
                current - r
            } else {
                len - (r - current)
            }
        };
        proof {
            let o = offset as int;
            let l = len as int;
            let c = current as int;
            let m = if o >= 0 { o } else { -o };
            assert(r as int == m % l);
            vstd::arithmetic::div_mod::lemma_fundamental_div_mod(m, l);
            vstd::arithmetic::div_mod::lemma_mod_bound(m, l);
            let q = m / l;
            if o >= 0 {
                vstd::arithmetic::div_mod::lemma_mod_multiples_vanish(q, c + r, l);
                assert(c + o == l * q + (c + r)) by (nonlinear_arith)
                    requires m == l * q + r, o == m;
                if r as int >= l - c {
                    vstd::arithmetic::div_mod::lemma_mod_multiples_vanish(1, new_index as int, l);
                    assert(c + r == l * 1 + new_index as int);
                }
                vstd::arithmetic::div_mod::lemma_small_mod(new_index as nat, l as nat);
            } else {
                vstd::arithmetic::div_mod::lemma_mod_multiples_vanish(-q, c - r, l);
                assert(c + o == l * (-q) + (c - r)) by (nonlinear_arith)
                    requires m == l * q + r, o == -m;
                if r <= current {
                } else {
                    vstd::arithmetic::div_mod::lemma_mod_multiples_vanish(-1, new_index as int, l);
                    assert(c - r == l * (-1) + new_index as int);
                }
                vstd::arithmetic::div_mod::lemma_small_mod(new_index as nat, l as nat);
            }
        }
        self.selected = Some(new_index);
    }
}

} // verus!
