//! The link extractor: a priority-ordered fallback chain of CSS selection
//! rules is applied to the index page; the first rule that yields at least
//! one surviving candidate wins. Candidates are filtered by a fixed set of
//! data-file markers, resolved against the base URL, and deduplicated in
//! first-occurrence order.

use vstd::prelude::*;

use crate::html::{hrefs_of, select_hrefs};
use crate::resolve::{join_of, resolve_url};
use crate::text::{contains_seq, starts_with_seq, str_contains, str_starts_with};

verus! {

/// The fixed, priority-ordered selection rules, strongest first; the bare
/// anchor selector is the last resort.
pub open spec fn spec_selectors() -> Seq<Seq<char>> {
    seq![
        "div.bdpLink a"@,
        "a[href*='.gz']"@,
        "a[href*='.tar']"@,
        "a[href*='.bz2']"@,
        "a[href*='download']"@,
        "a[href*='V06']"@,
        "a[href*='AAL2']"@,
        "table a"@,
        ".download a"@,
        ".file-link a"@,
        "a"@,
    ]
}

/// The selection rules as selector strings, in priority order.
pub fn selectors() -> (r: Vec<&'static str>)
    ensures
        r.deep_view() == spec_selectors(),
{
    let mut r: Vec<&'static str> = Vec::new();
    r.push("div.bdpLink a");
    r.push("a[href*='.gz']");
    r.push("a[href*='.tar']");
    r.push("a[href*='.bz2']");
    r.push("a[href*='download']");
    r.push("a[href*='V06']");
    r.push("a[href*='AAL2']");
    r.push("table a");
    r.push(".download a");
    r.push(".file-link a");
    r.push("a");
    proof {
        assert(r.deep_view() =~= spec_selectors());
    }
    r
}

/// The content-likelihood test: an href is kept when it carries one of the
/// archive/compression extensions or known product-code substrings, or is
/// already absolute and mentions a download.
pub open spec fn spec_is_data_href(h: Seq<char>) -> bool {
    ||| contains_seq(h, ".gz"@)
    ||| contains_seq(h, ".tar"@)
    ||| contains_seq(h, ".bz2"@)
    ||| contains_seq(h, "V06"@)
    ||| contains_seq(h, "AAL2"@)
    ||| (starts_with_seq(h, "http"@) && contains_seq(h, "download"@))
}

/// Whether an href looks like a link to a data file.
pub fn is_data_href(h: &str) -> (r: bool)
    ensures
        r == spec_is_data_href(h@),
{
    str_contains(h, ".gz") || str_contains(h, ".tar") || str_contains(h, ".bz2")
        || str_contains(h, "V06") || str_contains(h, "AAL2")
        || (str_starts_with(h, "http") && str_contains(h, "download"))
}

/// Whether `v` holds a string whose characters equal `s`'s.
fn vec_contains_string(v: &Vec<String>, s: &String) -> (r: bool)
    ensures
        r == v.deep_view().contains(s@),
{
    let n = v.len();
    let mut i: usize = 0;
    while i < n
        invariant
            n == v@.len(),
            i <= n,
            forall|k: int| 0 <= k < i ==> v@[k]@ != s@,
        decreases n - i,
    {
        if v[i].eq(s) {
            proof {
                assert(v.deep_view()[i as int] == s@);
            }
            return true;
        }
        i += 1;
    }
    proof {
        if v.deep_view().contains(s@) {
            let k = choose|k: int| 0 <= k < v.deep_view().len() && v.deep_view()[k] == s@;
            assert(v@[k]@ == s@);
        }
    }
    false
}

/// What one rule's candidates add to `acc`: each href that passes the
/// marker test and resolves against `base` is appended, unless its
/// absolute URL is already present; the first occurrence keeps its place.
pub open spec fn spec_resolve_filtered(
    hrefs: Seq<Seq<char>>,
    base: Seq<char>,
    acc: Seq<Seq<char>>,
) -> Seq<Seq<char>>
    decreases hrefs.len(),
{
    if hrefs.len() == 0 {
        acc
    } else {
        let h = hrefs[0];
        let rest = hrefs.drop_first();
        if spec_is_data_href(h) {
            match join_of(base, h) {
                Some(u) => if acc.contains(u) {
                    spec_resolve_filtered(rest, base, acc)
                } else {
                    spec_resolve_filtered(rest, base, acc.push(u))
                },
                None => spec_resolve_filtered(rest, base, acc),
            }
        } else {
            spec_resolve_filtered(rest, base, acc)
        }
    }
}

/// Filters `hrefs` by the marker test, resolves the survivors against
/// `base`, and appends each absolute URL not yet in `acc`; an href whose
/// resolution fails is skipped on its own, never failing the pass.
pub fn resolve_filtered(hrefs: &Vec<String>, base: &str, acc: &mut Vec<String>)
    ensures
        final(acc).deep_view() == spec_resolve_filtered(
            hrefs.deep_view(),
            base@,
            old(acc).deep_view(),
        ),
{
    let ghost acc0 = acc.deep_view();
    let n = hrefs.len();
    let mut i: usize = 0;
    proof {
        assert(hrefs.deep_view().skip(0) =~= hrefs.deep_view());
    }
    while i < n
        invariant
            n == hrefs@.len(),
            i <= n,
            spec_resolve_filtered(hrefs.deep_view(), base@, acc0)
                == spec_resolve_filtered(hrefs.deep_view().skip(i as int), base@, acc.deep_view()),
        decreases n - i,
    {
        proof {
            assert(hrefs.deep_view().skip(i as int).drop_first() =~= hrefs.deep_view().skip(
                i + 1,
            ));
            assert(hrefs.deep_view().skip(i as int)[0] == hrefs.deep_view()[i as int]);
            assert(hrefs.deep_view()[i as int] == hrefs@[i as int]@);
        }
        let h: &String = &hrefs[i];
        if is_data_href(h.as_str()) {
            match resolve_url(base, h.as_str()) {
                Some(u) => {
                    if !vec_contains_string(acc, &u) {
                        let ghost before = acc.deep_view();
                        let ghost uv = u@;
                        acc.push(u);
                        proof {
                            assert(acc.deep_view() =~= before.push(uv));
                        }
                    }
                },
                None => {},
            }
        }
        i += 1;
    }
    proof {
        assert(hrefs.deep_view().skip(n as int) =~= Seq::<Seq<char>>::empty());
    }
}

/// The deduplicated absolute URLs that one rule contributes on its own:
/// nothing when its selector is malformed, else its candidates filtered,
/// resolved and deduplicated from an empty accumulator.
pub open spec fn spec_rule_links(html: Seq<char>, base: Seq<char>, sel: Seq<char>) -> Seq<
    Seq<char>,
> {
    match hrefs_of(html, sel) {
        Some(hs) => spec_resolve_filtered(hs, base, Seq::empty()),
        None => Seq::empty(),
    }
}

/// First-rule-wins evaluation of a rule chain: the result of the first
/// rule in `sels` that yields anything, and the empty sequence when none
/// does.
pub open spec fn spec_extract_from(html: Seq<char>, base: Seq<char>, sels: Seq<Seq<char>>) -> Seq<
    Seq<char>,
>
    decreases sels.len(),
{
    if sels.len() == 0 {
        Seq::empty()
    } else if spec_rule_links(html, base, sels[0]).len() > 0 {
        spec_rule_links(html, base, sels[0])
    } else {
        spec_extract_from(html, base, sels.drop_first())
    }
}

/// What extraction returns for a page: the fixed rule chain evaluated
/// first-rule-wins.
pub open spec fn spec_extract(html: Seq<char>, base: Seq<char>) -> Seq<Seq<char>> {
    spec_extract_from(html, base, spec_selectors())
}

/// Extracts the data-file links of an index page: the fixed selection
/// rules are tried in priority order and the first rule that yields at
/// least one surviving candidate determines the whole result; when no
/// rule yields anything the result is empty, never an error.
pub fn extract(html: &str, base_url: &str) -> (r: Vec<String>)
    ensures
        r.deep_view() == spec_extract(html@, base_url@),
{
    let sels = selectors();
    let n = sels.len();
    let mut i: usize = 0;
    proof {
        assert(spec_selectors().skip(0) =~= spec_selectors());
    }
    while i < n
        invariant
            n == sels@.len(),
            sels.deep_view() == spec_selectors(),
            i <= n,
            spec_extract(html@, base_url@) == spec_extract_from(
                html@,
                base_url@,
                spec_selectors().skip(i as int),
            ),
        decreases n - i,
    {
        proof {
            assert(spec_selectors().skip(i as int).drop_first() =~= spec_selectors().skip(i + 1));
            assert(spec_selectors().skip(i as int)[0] == spec_selectors()[i as int]);
            assert(sels.deep_view()[i as int] == sels@[i as int]@);
        }
        let sel: &str = sels[i];
        match select_hrefs(html, sel) {
            Some(hrefs) => {
                let mut links: Vec<String> = Vec::new();
                proof {
                    assert(links.deep_view() =~= Seq::<Seq<char>>::empty());
                }
                resolve_filtered(&hrefs, base_url, &mut links);
                if links.len() > 0 {
                    return links;
                }
            },
            None => {},
        }
        i += 1;
    }
    proof {
        assert(spec_selectors().skip(n as int) =~= Seq::<Seq<char>>::empty());
    }
    let empty: Vec<String> = Vec::new();
    proof {
        assert(empty.deep_view() =~= Seq::<Seq<char>>::empty());
    }
    empty
}

/// No string occurs twice in `s`.
pub open spec fn no_dup(s: Seq<Seq<char>>) -> bool {
    forall|i: int, j: int| 0 <= i < j < s.len() ==> s[i] != s[j]
}

/// Deduplication is preserved through one rule's pass: starting from an
/// accumulator without duplicates, the filtered, resolved result has none
/// either.
pub proof fn lemma_resolve_filtered_no_dup(
    hrefs: Seq<Seq<char>>,
    base: Seq<char>,
    acc: Seq<Seq<char>>,
)
    requires
        no_dup(acc),
    ensures
        no_dup(spec_resolve_filtered(hrefs, base, acc)),
    decreases hrefs.len(),
{
    if hrefs.len() == 0 {
    } else {
        let h = hrefs[0];
        let rest = hrefs.drop_first();
        if spec_is_data_href(h) {
            match join_of(base, h) {
                Some(u) => {
                    if acc.contains(u) {
                        lemma_resolve_filtered_no_dup(rest, base, acc);
                    } else {
                        assert(no_dup(acc.push(u))) by {
                            assert forall|i: int, j: int|
                                0 <= i < j < acc.push(u).len() implies acc.push(u)[i] != acc.push(
                                u,
                            )[j] by {
                                if j == acc.len() {
                                    assert(acc.push(u)[i] == acc[i]);
                                    if acc[i] == u {
                                        assert(acc.contains(u));
                                    }
                                }
                            }
                        }
                        lemma_resolve_filtered_no_dup(rest, base, acc.push(u));
                    }
                },
                None => {
                    lemma_resolve_filtered_no_dup(rest, base, acc);
                },
            }
        } else {
            lemma_resolve_filtered_no_dup(rest, base, acc);
        }
    }
}

/// Some href among `hrefs` passes the marker test and resolves to the
/// absolute URL `u` against `base`.
pub open spec fn spec_yields_url(hrefs: Seq<Seq<char>>, base: Seq<char>, u: Seq<char>) -> bool {
    exists|k: int|
        0 <= k < hrefs.len() && spec_is_data_href(hrefs[k]) && join_of(base, hrefs[k]) == Some(u)
}

/// A pass never reorders or removes what was already accumulated: the
/// accumulator stays in place as a prefix of the result, so the first
/// occurrence of every URL keeps its position.
pub proof fn lemma_resolve_filtered_extends(
    hrefs: Seq<Seq<char>>,
    base: Seq<char>,
    acc: Seq<Seq<char>>,
)
    ensures
        spec_resolve_filtered(hrefs, base, acc).len() >= acc.len(),
        spec_resolve_filtered(hrefs, base, acc).subrange(0, acc.len() as int) == acc,
    decreases hrefs.len(),
{
    if hrefs.len() == 0 {
        assert(acc.subrange(0, acc.len() as int) =~= acc);
    } else {
        let h = hrefs[0];
        let rest = hrefs.drop_first();
        let result = spec_resolve_filtered(hrefs, base, acc);
        if spec_is_data_href(h) && join_of(base, h) is Some && !acc.contains(
            join_of(base, h)->Some_0,
        ) {
            let v = join_of(base, h)->Some_0;
            lemma_resolve_filtered_extends(rest, base, acc.push(v));
            assert(result.subrange(0, acc.len() + 1 as int) == acc.push(v));
            assert forall|i: int| 0 <= i < acc.len() implies result[i] == acc[i] by {
                assert(result.subrange(0, acc.len() + 1 as int)[i] == result[i]);
                assert(acc.push(v)[i] == acc[i]);
            }
            assert(result.subrange(0, acc.len() as int) =~= acc);
        } else {
            lemma_resolve_filtered_extends(rest, base, acc);
        }
    }
}

/// What one pass accumulates, as a set: exactly the URLs already present,
/// together with every absolute URL that some marker-matching href among
/// the candidates resolves to.
pub proof fn lemma_resolve_filtered_membership(
    hrefs: Seq<Seq<char>>,
    base: Seq<char>,
    acc: Seq<Seq<char>>,
    u: Seq<char>,
)
    ensures
        spec_resolve_filtered(hrefs, base, acc).contains(u) <==> (acc.contains(u)
            || spec_yields_url(hrefs, base, u)),
    decreases hrefs.len(),
{
    if hrefs.len() == 0 {
        assert(!spec_yields_url(hrefs, base, u));
    } else {
        let h = hrefs[0];
        let rest = hrefs.drop_first();
        let result = spec_resolve_filtered(hrefs, base, acc);
        assert(forall|k: int| 0 <= k < rest.len() ==> rest[k] == hrefs[k + 1]);
        if spec_is_data_href(h) && join_of(base, h) is Some {
            let v = join_of(base, h)->Some_0;
            if acc.contains(v) {
                lemma_resolve_filtered_membership(rest, base, acc, u);
                if result.contains(u) && !acc.contains(u) {
                    let k = choose|k: int|
                        0 <= k < rest.len() && spec_is_data_href(rest[k]) && join_of(base, rest[k])
                            == Some(u);
                    assert(hrefs[k + 1] == rest[k]);
                    assert(spec_yields_url(hrefs, base, u));
                }
                if spec_yields_url(hrefs, base, u) && !acc.contains(u) {
                    let k = choose|k: int|
                        0 <= k < hrefs.len() && spec_is_data_href(hrefs[k]) && join_of(
                            base,
                            hrefs[k],
                        ) == Some(u);
                    assert(k != 0);
                    assert(rest[k - 1] == hrefs[k]);
                    assert(spec_yields_url(rest, base, u));
                }
            } else {
                lemma_resolve_filtered_membership(rest, base, acc.push(v), u);
                assert(acc.push(v).contains(u) <==> (acc.contains(u) || u == v)) by {
                    if acc.push(v).contains(u) {
                        let i = choose|i: int|
                            0 <= i < acc.push(v).len() && acc.push(v)[i] == u;
                        if i < acc.len() {
                            assert(acc[i] == u);
                        }
                    }
                    if acc.contains(u) {
                        let i = choose|i: int| 0 <= i < acc.len() && acc[i] == u;
                        assert(acc.push(v)[i] == u);
                    }
                    assert(acc.push(v)[acc.len() as int] == v);
                }
                if result.contains(u) && !acc.contains(u) {
                    if u == v {
                        assert(spec_yields_url(hrefs, base, u));
                    } else {
                        let k = choose|k: int|
                            0 <= k < rest.len() && spec_is_data_href(rest[k]) && join_of(
                                base,
                                rest[k],
                            ) == Some(u);
                        assert(hrefs[k + 1] == rest[k]);
                        assert(spec_yields_url(hrefs, base, u));
                    }
                }
                if spec_yields_url(hrefs, base, u) && !acc.contains(u) && u != v {
                    let k = choose|k: int|
                        0 <= k < hrefs.len() && spec_is_data_href(hrefs[k]) && join_of(
                            base,
                            hrefs[k],
                        ) == Some(u);
                    assert(k != 0);
                    assert(rest[k - 1] == hrefs[k]);
                    assert(spec_yields_url(rest, base, u));
                }
            }
        } else {
            lemma_resolve_filtered_membership(rest, base, acc, u);
            if result.contains(u) && !acc.contains(u) {
                let k = choose|k: int|
                    0 <= k < rest.len() && spec_is_data_href(rest[k]) && join_of(base, rest[k])
                        == Some(u);
                assert(hrefs[k + 1] == rest[k]);
                assert(spec_yields_url(hrefs, base, u));
            }
            if spec_yields_url(hrefs, base, u) && !acc.contains(u) {
                let k = choose|k: int|
                    0 <= k < hrefs.len() && spec_is_data_href(hrefs[k]) && join_of(base, hrefs[k])
                        == Some(u);
                assert(k != 0);
                assert(rest[k - 1] == hrefs[k]);
                assert(spec_yields_url(rest, base, u));
            }
        }
    }
}

/// Exactly the matching candidates: a URL stands in one rule's own
/// contribution iff some href the rule matched passes the marker test
/// and resolves to that URL against the base.
pub proof fn lemma_rule_links_membership(
    html: Seq<char>,
    base: Seq<char>,
    sel: Seq<char>,
    hs: Seq<Seq<char>>,
    u: Seq<char>,
)
    requires
        hrefs_of(html, sel) == Some(hs),
    ensures
        spec_rule_links(html, base, sel).contains(u) <==> spec_yields_url(hs, base, u),
{
    lemma_resolve_filtered_membership(hs, base, Seq::empty(), u);
}

/// Rule priority: when every rule before position `i` yields nothing and
/// rule `i` yields at least one link, the chain's result is exactly rule
/// `i`'s own contribution — later rules contribute nothing.
proof fn lemma_extract_from_winner(html: Seq<char>, base: Seq<char>, sels: Seq<Seq<char>>, i: int)
    requires
        0 <= i < sels.len(),
        forall|j: int| 0 <= j < i ==> spec_rule_links(html, base, sels[j]).len() == 0,
        spec_rule_links(html, base, sels[i]).len() > 0,
    ensures
        spec_extract_from(html, base, sels) == spec_rule_links(html, base, sels[i]),
    decreases i,
{
    if i == 0 {
    } else {
        assert(spec_rule_links(html, base, sels[0]).len() == 0);
        assert forall|j: int| 0 <= j < i - 1 implies spec_rule_links(
            html,
            base,
            sels.drop_first()[j],
        ).len() == 0 by {
            assert(sels.drop_first()[j] == sels[j + 1]);
        }
        assert(sels.drop_first()[i - 1] == sels[i]);
        lemma_extract_from_winner(html, base, sels.drop_first(), i - 1);
    }
}

/// When no rule in the chain yields anything, the chain's result is empty.
proof fn lemma_extract_from_empty(html: Seq<char>, base: Seq<char>, sels: Seq<Seq<char>>)
    requires
        forall|j: int| 0 <= j < sels.len() ==> spec_rule_links(html, base, sels[j]).len() == 0,
    ensures
        spec_extract_from(html, base, sels) == Seq::<Seq<char>>::empty(),
    decreases sels.len(),
{
    if sels.len() == 0 {
    } else {
        assert(spec_rule_links(html, base, sels[0]).len() == 0);
        assert forall|j: int| 0 <= j < sels.drop_first().len() implies spec_rule_links(
            html,
            base,
            sels.drop_first()[j],
        ).len() == 0 by {
            assert(sels.drop_first()[j] == sels[j + 1]);
        }
        lemma_extract_from_empty(html, base, sels.drop_first());
    }
}

/// The highest-priority rule that yields anything determines the whole
/// extraction result on its own: for a page where every rule before
/// position `i` finds nothing and rule `i` finds at least one link, the
/// result equals rule `i`'s deduplicated, order-preserved contribution.
pub proof fn lemma_first_matching_rule_wins(html: Seq<char>, base: Seq<char>, i: int)
    requires
        0 <= i < spec_selectors().len(),
        forall|j: int| 0 <= j < i ==> spec_rule_links(html, base, spec_selectors()[j]).len() == 0,
        spec_rule_links(html, base, spec_selectors()[i]).len() > 0,
    ensures
        spec_extract(html, base) == spec_rule_links(html, base, spec_selectors()[i]),
{
    lemma_extract_from_winner(html, base, spec_selectors(), i);
}

/// When no rule matches anything on a page, extraction returns the empty
/// sequence — there is no error outcome.
pub proof fn lemma_no_rule_no_links(html: Seq<char>, base: Seq<char>)
    requires
        forall|j: int|
            0 <= j < spec_selectors().len() ==> spec_rule_links(
                html,
                base,
                spec_selectors()[j],
            ).len() == 0,
    ensures
        spec_extract(html, base) == Seq::<Seq<char>>::empty(),
{
    lemma_extract_from_empty(html, base, spec_selectors());
}

/// Whatever the page, an extracted URL appears exactly once: the result
/// of extraction holds no duplicates.
pub proof fn lemma_extract_no_duplicates(html: Seq<char>, base: Seq<char>)
    ensures
        no_dup(spec_extract(html, base)),
{
    lemma_extract_from_no_dup(html, base, spec_selectors());
}

proof fn lemma_extract_from_no_dup(html: Seq<char>, base: Seq<char>, sels: Seq<Seq<char>>)
    ensures
        no_dup(spec_extract_from(html, base, sels)),
    decreases sels.len(),
{
    if sels.len() == 0 {
    } else if spec_rule_links(html, base, sels[0]).len() > 0 {
        match hrefs_of(html, sels[0]) {
            Some(hs) => {
                lemma_resolve_filtered_no_dup(hs, base, Seq::empty());
            },
            None => {},
        }
    } else {
        lemma_extract_from_no_dup(html, base, sels.drop_first());
    }
}

} // verus!
