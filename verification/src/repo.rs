//! The rules of the usage store that do not need the database: aliases,
//! category rules with their glob patterns, chart granularities and date
//! keys.

use vstd::prelude::*;
use vstd::string::StringExecFns;
use crate::encoding::string_from_chars;
use crate::text::{chars_of, trim, trim_chars, Strip};
use chrono::{Datelike, TimeZone};

verus! {

/// A user alias, trimmed; a blank one is no alias.
pub open spec fn normalized_alias(alias: Option<Seq<char>>) -> Option<Seq<char>> {
    match alias {
        Some(a) if trim(a, Strip::WhiteSpace).len() > 0 => Some(trim(a, Strip::WhiteSpace)),
        _ => None,
    }
}

/// Trims an alias and drops it when nothing is left.
pub fn normalize_alias(alias: Option<&str>) -> (r: Option<String>)
    ensures
        match r {
            Some(s) => normalized_alias(match alias { Some(a) => Some(a@), None => None }) == Some(s@),
            None => normalized_alias(match alias { Some(a) => Some(a@), None => None }) is None,
        },
{
    match alias {
        Some(a) => {
            let t = trim_chars(chars_of(a).as_slice(), Strip::WhiteSpace);
            if t.len() == 0 {
                None
            } else {
                Some(string_from_chars(t.as_slice()))
            }
        },
        None => None,
    }
}

/// The Unicode lowercase form of a text, as `str::to_lowercase` gives it.
pub uninterp spec fn lowercase(s: Seq<char>) -> Seq<char>;

/// `str::to_lowercase`. Trusted: the result is `lowercase` of the text (the
/// Unicode mapping itself is not stated here).
#[verifier::external_body]
fn to_lowercase(s: &str) -> (r: String)
    ensures
        r@ == lowercase(s@),
{
    s.to_lowercase()
}

/// Whether `n` matches the glob pattern `p`: `*` matches any run of
/// characters, `?` any one character, and every other character itself.
pub open spec fn glob(p: Seq<char>, n: Seq<char>) -> bool
    decreases p.len() + n.len(),
{
    if p.len() == 0 {
        n.len() == 0
    } else if p.last() == '*' {
        glob(p.drop_last(), n) || (n.len() > 0 && glob(p, n.drop_last()))
    } else if n.len() == 0 {
        false
    } else if p.last() == '?' {
        glob(p.drop_last(), n.drop_last())
    } else {
        p.last() == n.last() && glob(p.drop_last(), n.drop_last())
    }
}

proof fn lemma_glob_step(p: Seq<char>, n: Seq<char>, i: int, j: int)
    requires
        1 <= i <= p.len(),
        0 <= j <= n.len(),
    ensures
        glob(p.take(i), n.take(j)) == (if p[i - 1] == '*' {
            glob(p.take(i - 1), n.take(j)) || (j > 0 && glob(p.take(i), n.take(j - 1)))
        } else if j == 0 {
            false
        } else if p[i - 1] == '?' {
            glob(p.take(i - 1), n.take(j - 1))
        } else {
            p[i - 1] == n[j - 1] && glob(p.take(i - 1), n.take(j - 1))
        }),
{
    assert(p.take(i).last() == p[i - 1]);
    assert(p.take(i).drop_last() =~= p.take(i - 1));
    if j > 0 {
        assert(n.take(j).drop_last() =~= n.take(j - 1));
        assert(n.take(j).last() == n[j - 1]);
    }
}

proof fn lemma_glob_star_any(n: Seq<char>)
    ensures
        glob(seq!['*'], n),
    decreases n.len(),
{
    assert(seq!['*'].drop_last() =~= Seq::<char>::empty());
    assert(seq!['*'].last() == '*');
    if n.len() > 0 {
        lemma_glob_star_any(n.drop_last());
    } else {
        assert(glob(Seq::<char>::empty(), n));
    }
}

proof fn lemma_glob_literal(s: Seq<char>, a: Seq<char>)
    requires
        forall|i: int| 0 <= i < s.len() ==> s[i] != '*' && s[i] != '?',
    ensures
        glob(s, a) <==> s == a,
    decreases s.len(),
{
    if s.len() == 0 {
        if a.len() == 0 {
            assert(s =~= a);
        }
    } else {
        assert(s.last() == s[s.len() - 1]);
        lemma_glob_literal(s.drop_last(), a);
        if a.len() > 0 {
            lemma_glob_literal(s.drop_last(), a.drop_last());
            if s.last() == a.last() && s.drop_last() == a.drop_last() {
                assert(s =~= s.drop_last().push(s.last()));
                assert(a =~= a.drop_last().push(a.last()));
                assert(s =~= a);
            }
            if s == a {
                assert(s.drop_last() =~= a.drop_last());
            }
        }
    }
}

proof fn lemma_glob_star_suffix(s: Seq<char>, a: Seq<char>)
    requires
        forall|i: int| 0 <= i < s.len() ==> s[i] != '*' && s[i] != '?',
    ensures
        glob(seq!['*'] + s, a + s),
    decreases s.len(),
{
    if s.len() == 0 {
        assert(seq!['*'] + s =~= seq!['*']);
        assert(a + s =~= a);
        lemma_glob_star_any(a);
    } else {
        let sp = s.drop_last();
        lemma_glob_star_suffix(sp, a);
        assert(s.last() == s[s.len() - 1]);
        assert((seq!['*'] + s).drop_last() =~= seq!['*'] + sp);
        assert((seq!['*'] + s).last() == s.last());
        assert((a + s).drop_last() =~= a + sp);
        assert((a + s).last() == s.last());
    }
}

proof fn lemma_glob_trailing_star(p: Seq<char>, a: Seq<char>, b: Seq<char>)
    requires
        glob(p, a),
    ensures
        glob(p.push('*'), a + b),
    decreases b.len(),
{
    assert(p.push('*').drop_last() =~= p);
    if b.len() == 0 {
        assert(a + b =~= a);
    } else {
        lemma_glob_trailing_star(p, a, b.drop_last());
        assert((a + b).drop_last() =~= a + b.drop_last());
    }
}

/// What the patterns of category rules mean: `*` alone matches every name,
/// `?` alone every one-character name; a pattern without `*` or `?` matches
/// exactly the equal name; `*` followed by such a text matches every name
/// ending in it (as `*.exe` matches `code.exe`); a pattern that matches a
/// name, followed by `*`, matches every name that begins with that name.
pub proof fn law_glob_patterns(p: Seq<char>, a: Seq<char>, b: Seq<char>, s: Seq<char>)
    ensures
        glob(seq!['*'], a),
        glob(seq!['?'], a) <==> a.len() == 1,
        (forall|i: int| 0 <= i < s.len() ==> s[i] != '*' && s[i] != '?') ==> (glob(s, a) <==> s == a),
        (forall|i: int| 0 <= i < s.len() ==> s[i] != '*' && s[i] != '?') ==> glob(seq!['*'] + s, a + s),
        glob(p, a) ==> glob(p.push('*'), a + b),
{
    lemma_glob_star_any(a);
    assert(seq!['?'].drop_last() =~= Seq::<char>::empty());
    assert(seq!['?'].last() == '?');
    if a.len() > 0 {
        assert(glob(seq!['?'], a) == glob(Seq::<char>::empty(), a.drop_last()));
    }
    if forall|i: int| 0 <= i < s.len() ==> s[i] != '*' && s[i] != '?' {
        lemma_glob_literal(s, a);
        lemma_glob_star_suffix(s, a);
    }
    if glob(p, a) {
        lemma_glob_trailing_star(p, a, b);
    }
}

/// Whether the characters match the pattern, by dynamic programming over
/// pattern prefixes and name prefixes.
fn glob_chars(p: &Vec<char>, n: &Vec<char>) -> (r: bool)
    ensures
        r == glob(p@, n@),
{
    let m = n.len();
    // prev[j]: whether the first i pattern characters match n[..j]
    let mut prev: Vec<bool> = Vec::new();
    prev.push(true);
    proof {
        assert(p@.take(0).len() == 0 && n@.take(0).len() == 0);
    }
    let mut j: usize = 0;
    while j < m
        invariant
            m == n@.len(),
            j <= m,
            prev@.len() == j + 1,
            forall|k: int| 0 <= k <= j ==> prev@[k] == glob(p@.take(0), #[trigger] n@.take(k)),
        decreases m - j,
    {
        proof {
            assert(p@.take(0).len() == 0);
            assert(n@.take(j + 1).len() > 0);
        }
        prev.push(false);
        j = j + 1;
    }
    let mut i: usize = 0;
    while i < p.len()
        invariant
            m == n@.len(),
            i <= p@.len(),
            prev@.len() == m + 1,
            forall|k: int| 0 <= k <= m ==> prev@[k] == glob(p@.take(i as int), #[trigger] n@.take(k)),
        decreases p@.len() - i,
    {
        let c = p[i];
        let mut cur: Vec<bool> = Vec::new();
        proof {
            lemma_glob_step(p@, n@, i + 1, 0);
        }
        cur.push(c == '*' && prev[0]);
        let mut j: usize = 0;
        while j < m
            invariant
                m == n@.len(),
                i < p@.len(),
                c == p@[i as int],
                j <= m,
                prev@.len() == m + 1,
                cur@.len() == j + 1,
                forall|k: int| 0 <= k <= m ==> prev@[k] == glob(p@.take(i as int), #[trigger] n@.take(k)),
                forall|k: int| 0 <= k <= j ==> cur@[k] == glob(p@.take(i + 1), #[trigger] n@.take(k)),
            decreases m - j,
        {
            proof {
                lemma_glob_step(p@, n@, i + 1, j + 1);
            }
            let v = if c == '*' {
                prev[j + 1] || cur[j]
            } else if c == '?' {
                prev[j]
            } else {
                prev[j] && c == n[j]
            };
            cur.push(v);
            j = j + 1;
        }
        prev = cur;
        i = i + 1;
    }
    assert(p@.take(p@.len() as int) =~= p@);
    assert(n@.take(m as int) =~= n@);
    prev[m]
}

/// Whether `name` matches the glob `pattern`, both compared in lowercase.
pub fn glob_match(pattern: &str, name: &str) -> (r: bool)
    ensures
        r == glob(lowercase(pattern@), lowercase(name@)),
{
    let p = chars_of(to_lowercase(pattern).as_str());
    let n = chars_of(to_lowercase(name).as_str());
    glob_chars(&p, &n)
}

/// The characters that separate the rules of a category.
pub open spec fn is_rule_separator(c: char) -> bool {
    c == ',' || c == ';' || c == '\n'
}

/// The pieces of `s` between separators, in order (one more than there are
/// separators).
pub open spec fn rule_pieces(s: Seq<char>) -> Seq<Seq<char>>
    decreases s.len(),
{
    if s.len() == 0 {
        seq![Seq::<char>::empty()]
    } else {
        let rest = rule_pieces(s.drop_last());
        if is_rule_separator(s.last()) {
            rest.push(Seq::<char>::empty())
        } else {
            rest.update(rest.len() - 1, rest.last().push(s.last()))
        }
    }
}

proof fn lemma_rule_pieces_nonempty(s: Seq<char>)
    ensures
        rule_pieces(s).len() >= 1,
    decreases s.len(),
{
    if s.len() > 0 {
        lemma_rule_pieces_nonempty(s.drop_last());
    }
}

/// Whether a rule (a trimmed, non-blank piece) matches the process name or
/// the display name.
pub open spec fn rule_hits(rule: Seq<char>, process: Seq<char>, name: Option<Seq<char>>) -> bool {
    glob(lowercase(rule), lowercase(process)) || (name matches Some(n) && glob(lowercase(rule), lowercase(n)))
}

/// Whether one of the rules of `rules` matches.
pub open spec fn rules_hit(rules: Seq<char>, process: Seq<char>, name: Option<Seq<char>>) -> bool {
    exists|k: int| 0 <= k < rule_pieces(rules).len()
        && trim(#[trigger] rule_pieces(rules)[k], Strip::WhiteSpace).len() > 0
        && rule_hits(trim(rule_pieces(rules)[k], Strip::WhiteSpace), process, name)
}

proof fn lemma_rule_pieces_join(r1: Seq<char>, sep: char, r2: Seq<char>)
    requires
        sep == ',' || sep == ';' || sep == '\n',
    ensures
        rule_pieces(r1.push(sep) + r2) == rule_pieces(r1) + rule_pieces(r2),
    decreases r2.len(),
{
    let s = r1.push(sep) + r2;
    if r2.len() == 0 {
        assert(s =~= r1.push(sep));
        assert(s.drop_last() =~= r1);
        assert(rule_pieces(r2) =~= seq![Seq::<char>::empty()]);
        assert(rule_pieces(r1).push(Seq::<char>::empty()) =~= rule_pieces(r1) + rule_pieces(r2));
    } else {
        let r2p = r2.drop_last();
        lemma_rule_pieces_join(r1, sep, r2p);
        lemma_rule_pieces_nonempty(r2p);
        assert(s.drop_last() =~= r1.push(sep) + r2p);
        assert(s.last() == r2.last());
        let p1 = rule_pieces(r1);
        let q = rule_pieces(r2p);
        if is_rule_separator(r2.last()) {
            assert((p1 + q).push(Seq::<char>::empty()) =~= p1 + q.push(Seq::<char>::empty()));
        } else {
            let rest = p1 + q;
            assert(rest.update(rest.len() - 1, rest.last().push(r2.last())) =~= p1 + q.update(
                q.len() - 1,
                q.last().push(r2.last()),
            ));
        }
    }
}

proof fn lemma_rule_pieces_single(r: Seq<char>)
    requires
        forall|i: int| 0 <= i < r.len() ==> r[i] != ',' && r[i] != ';' && r[i] != '\n',
    ensures
        rule_pieces(r) == seq![r],
    decreases r.len(),
{
    if r.len() > 0 {
        let rp = r.drop_last();
        lemma_rule_pieces_single(rp);
        assert(r.last() == r[r.len() - 1]);
        assert(!is_rule_separator(r.last()));
        assert(rp.push(r.last()) =~= r);
        assert(seq![rp].update(0, rp.push(r.last())) =~= seq![r]);
    } else {
        assert(r =~= Seq::<char>::empty());
    }
}

/// Rules are separated by `,`, `;` and line breaks: rules joined by one of
/// them hit exactly when the rules on one side or the other hit. A text
/// without any of these characters is one rule, which hits when it is not
/// blank and, trimmed, matches the process name or the display name.
pub proof fn law_rules_split_at_separators(r1: Seq<char>, sep: char, r2: Seq<char>, process: Seq<char>, name: Option<Seq<char>>)
    ensures
        (sep == ',' || sep == ';' || sep == '\n') ==> (rules_hit(r1.push(sep) + r2, process, name) <==> (rules_hit(
            r1,
            process,
            name,
        ) || rules_hit(r2, process, name))),
        (forall|i: int| 0 <= i < r2.len() ==> r2[i] != ',' && r2[i] != ';' && r2[i] != '\n') ==> (rules_hit(
            r2,
            process,
            name,
        ) <==> (trim(r2, Strip::WhiteSpace).len() > 0 && rule_hits(trim(r2, Strip::WhiteSpace), process, name))),
{
    if sep == ',' || sep == ';' || sep == '\n' {
        lemma_rule_pieces_join(r1, sep, r2);
        let p1 = rule_pieces(r1);
        let p2 = rule_pieces(r2);
        let all = rule_pieces(r1.push(sep) + r2);
        assert(all == p1 + p2);
        if rules_hit(r1.push(sep) + r2, process, name) {
            let k = choose|k: int| 0 <= k < all.len() && trim(#[trigger] all[k], Strip::WhiteSpace).len() > 0
                && rule_hits(trim(all[k], Strip::WhiteSpace), process, name);
            if k < p1.len() {
                assert(all[k] == p1[k]);
                assert(rules_hit(r1, process, name));
            } else {
                assert(all[k] == p2[k - p1.len()]);
                assert(rules_hit(r2, process, name));
            }
        }
        if rules_hit(r1, process, name) {
            let k = choose|k: int| 0 <= k < p1.len() && trim(#[trigger] p1[k], Strip::WhiteSpace).len() > 0
                && rule_hits(trim(p1[k], Strip::WhiteSpace), process, name);
            assert(all[k] == p1[k]);
        }
        if rules_hit(r2, process, name) {
            let k = choose|k: int| 0 <= k < p2.len() && trim(#[trigger] p2[k], Strip::WhiteSpace).len() > 0
                && rule_hits(trim(p2[k], Strip::WhiteSpace), process, name);
            assert(all[k + p1.len()] == p2[k]);
        }
    }
    if forall|i: int| 0 <= i < r2.len() ==> r2[i] != ',' && r2[i] != ';' && r2[i] != '\n' {
        lemma_rule_pieces_single(r2);
        assert(rule_pieces(r2)[0] == r2);
    }
}

fn piece_hits(piece: &Vec<char>, process: &str, name: Option<&str>) -> (r: bool)
    ensures
        r == (trim(piece@, Strip::WhiteSpace).len() > 0
            && rule_hits(trim(piece@, Strip::WhiteSpace), process@, match name { Some(n) => Some(n@), None => None })),
{
    let rule = trim_chars(piece.as_slice(), Strip::WhiteSpace);
    if rule.len() == 0 {
        return false;
    }
    let text = string_from_chars(rule.as_slice());
    if glob_match(text.as_str(), process) {
        return true;
    }
    match name {
        Some(n) => glob_match(text.as_str(), n),
        None => false,
    }
}

/// Whether one of the rules of a category (separated by `,`, `;` or line
/// breaks, trimmed, blank ones ignored) matches the process name or the
/// display name.
pub fn rules_match(rules: &str, process: &str, name: Option<&str>) -> (r: bool)
    ensures
        r == rules_hit(rules@, process@, match name { Some(n) => Some(n@), None => None }),
{
    let ghost nv: Option<Seq<char>> = match name { Some(n) => Some(n@), None => None };
    let v = chars_of(rules);
    let mut piece: Vec<char> = Vec::new();
    let mut found = false;
    let mut i: usize = 0;
    while i < v.len()
        invariant
            v@ == rules@,
            i <= v@.len(),
            nv == (match name { Some(n) => Some(n@), None => None::<Seq<char>> }),
            rule_pieces(v@.take(i as int)).len() >= 1,
            piece@ == rule_pieces(v@.take(i as int)).last(),
            found == exists|k: int| 0 <= k < rule_pieces(v@.take(i as int)).len() - 1
                && trim(#[trigger] rule_pieces(v@.take(i as int))[k], Strip::WhiteSpace).len() > 0
                && rule_hits(trim(rule_pieces(v@.take(i as int))[k], Strip::WhiteSpace), process@, nv),
        decreases v.len() - i,
    {
        let c = v[i];
        let ghost before = rule_pieces(v@.take(i as int));
        proof {
            lemma_rule_pieces_nonempty(v@.take(i + 1));
            assert(v@.take(i + 1).drop_last() =~= v@.take(i as int));
            assert(v@.take(i + 1).last() == c);
        }
        if c == ',' || c == ';' || c == '\n' {
            let hit = piece_hits(&piece, process, name);
            proof {
                let after = rule_pieces(v@.take(i + 1));
                assert(after == before.push(Seq::<char>::empty()));
                assert forall|k: int| 0 <= k < after.len() - 1 implies #[trigger] after[k] == before[k] by {}
            }
            found = found || hit;
            piece = Vec::new();
            proof {
                let after = rule_pieces(v@.take(i + 1));
                assert(piece@ =~= after.last());
                if hit {
                    assert(after[before.len() - 1] == before.last());
                }
                if found && !hit {
                    let k = choose|k: int| 0 <= k < before.len() - 1
                        && trim(#[trigger] before[k], Strip::WhiteSpace).len() > 0
                        && rule_hits(trim(before[k], Strip::WhiteSpace), process@, nv);
                    assert(after[k] == before[k]);
                }
                if !found {
                    assert forall|k: int| 0 <= k < after.len() - 1 implies !(trim(#[trigger] after[k], Strip::WhiteSpace).len() > 0
                        && rule_hits(trim(after[k], Strip::WhiteSpace), process@, nv)) by {
                        if k < before.len() - 1 {
                            assert(after[k] == before[k]);
                        } else {
                            assert(after[k] == before.last());
                        }
                    }
                }
            }
        } else {
            piece.push(c);
            proof {
                let after = rule_pieces(v@.take(i + 1));
                assert(after == before.update(before.len() - 1, before.last().push(c)));
                assert(piece@ =~= after.last());
                if found {
                    let k = choose|k: int| 0 <= k < before.len() - 1
                        && trim(#[trigger] before[k], Strip::WhiteSpace).len() > 0
                        && rule_hits(trim(before[k], Strip::WhiteSpace), process@, nv);
                    assert(after[k] == before[k]);
                } else {
                    assert forall|k: int| 0 <= k < after.len() - 1 implies !(trim(#[trigger] after[k], Strip::WhiteSpace).len() > 0
                        && rule_hits(trim(after[k], Strip::WhiteSpace), process@, nv)) by {
                        assert(after[k] == before[k]);
                    }
                }
            }
        }
        i = i + 1;
    }
    let last_hit = piece_hits(&piece, process, name);
    proof {
        assert(v@.take(i as int) =~= rules@);
        let ps = rule_pieces(rules@);
        if last_hit {
            assert(ps[ps.len() - 1] == ps.last());
        }
        if !found && !last_hit {
            assert forall|k: int| 0 <= k < ps.len() implies !(trim(#[trigger] ps[k], Strip::WhiteSpace).len() > 0
                && rule_hits(trim(ps[k], Strip::WhiteSpace), process@, nv)) by {
                if k == ps.len() - 1 {
                    assert(ps[k] == ps.last());
                }
            }
        }
    }
    found || last_hit
}

/// A category with rules, as the rule pass reads it.
pub struct CategoryRules {
    pub id: i64,
    pub rules: String,
}

/// The category a rule pass assigns: the last category one of whose rules
/// matches.
pub open spec fn matching_category(cats: Seq<(i64, Seq<char>)>, process: Seq<char>, name: Option<Seq<char>>) -> Option<i64>
    decreases cats.len(),
{
    if cats.len() == 0 {
        None
    } else if rules_hit(cats.last().1, process, name) {
        Some(cats.last().0)
    } else {
        matching_category(cats.drop_last(), process, name)
    }
}

pub open spec fn category_rules_views(cats: Seq<CategoryRules>) -> Seq<(i64, Seq<char>)> {
    cats.map_values(|c: CategoryRules| (c.id, c.rules@))
}

/// The category the rules give an application (none when no rule matches).
pub fn pick_category(cats: &[CategoryRules], process: &str, name: Option<&str>) -> (r: Option<i64>)
    ensures
        r == matching_category(category_rules_views(cats@), process@, match name { Some(n) => Some(n@), None => None }),
{
    let ghost nv: Option<Seq<char>> = match name { Some(n) => Some(n@), None => None };
    let ghost cv = category_rules_views(cats@);
    let mut matched: Option<i64> = None;
    let mut i: usize = 0;
    while i < cats.len()
        invariant
            cv == category_rules_views(cats@),
            i <= cats@.len(),
            nv == (match name { Some(n) => Some(n@), None => None::<Seq<char>> }),
            matched == matching_category(cv.take(i as int), process@, nv),
        decreases cats.len() - i,
    {
        let hit = rules_match(cats[i].rules.as_str(), process, name);
        proof {
            let t = cv.take(i + 1);
            assert(t.drop_last() =~= cv.take(i as int));
            assert(t.last() == (cats@[i as int].id, cats@[i as int].rules@));
        }
        if hit {
            matched = Some(cats[i].id);
        }
        i = i + 1;
    }
    assert(cv.take(i as int) =~= cv);
    matched
}

/// How a usage chart groups time.
#[derive(Debug, Clone, Copy, PartialEq, Eq, Structural)]
pub enum BarGranularity {
    Day,
    Week,
    Month,
    Year,
}

impl BarGranularity {
    /// The granularity named `day`, `week`, `month` or `year`.
    pub fn from_str(v: &str) -> (r: Option<BarGranularity>)
        ensures
            v@ == "day"@ ==> r == Some(BarGranularity::Day),
            v@ == "week"@ ==> r == Some(BarGranularity::Week),
            v@ == "month"@ ==> r == Some(BarGranularity::Month),
            v@ == "year"@ ==> r == Some(BarGranularity::Year),
            !(v@ == "day"@ || v@ == "week"@ || v@ == "month"@ || v@ == "year"@) ==> r is None,
    {
        proof {
            reveal_strlit("day");
            reveal_strlit("week");
            reveal_strlit("month");
            reveal_strlit("year");
            assert("day"@[0] == 'd' && "week"@[0] == 'w' && "month"@[0] == 'm' && "year"@[0] == 'y');
            assert("day"@ != "week"@ && "day"@ != "month"@ && "day"@ != "year"@);
            assert("week"@ != "month"@ && "week"@ != "year"@ && "month"@ != "year"@);
        }
        let s = v.to_owned();
        if s == "day".to_owned() {
            Some(BarGranularity::Day)
        } else if s == "week".to_owned() {
            Some(BarGranularity::Week)
        } else if s == "month".to_owned() {
            Some(BarGranularity::Month)
        } else if s == "year".to_owned() {
            Some(BarGranularity::Year)
        } else {
            None
        }
    }

    /// The number of bars: the hours of a day, the days of a week, the days
    /// the range spans (at least one; `day_span` is that count of local
    /// days), the months of a year.
    pub fn n_buckets(self, day_span: i64) -> (r: usize)
        requires
            day_span <= usize::MAX,
        ensures
            r == match self {
                BarGranularity::Day => 24,
                BarGranularity::Week => 7,
                BarGranularity::Month => if day_span < 1 { 1 } else { day_span as int },
                BarGranularity::Year => 12,
            },
    {
        match self {
            BarGranularity::Day => 24,
            BarGranularity::Week => 7,
            BarGranularity::Month => if day_span < 1 { 1 } else { day_span as usize },
            BarGranularity::Year => 12,
        }
    }
}

/// The granularity named by a chart request, or the message for an unknown
/// one.
pub fn granularity_or_error(name: &str) -> (r: Result<BarGranularity, String>)
    ensures
        match r {
            Ok(g) => BarGranularity::from_str_spec(name@) == Some(g),
            Err(m) => BarGranularity::from_str_spec(name@) is None && m@ == "未知粒度: "@ + name@,
        },
{
    match BarGranularity::from_str(name) {
        Some(g) => Ok(g),
        None => {
            let m = "未知粒度: ".to_owned();
            Err(m.concat(name))
        },
    }
}

impl BarGranularity {
    /// The granularity a name selects.
    pub open spec fn from_str_spec(v: Seq<char>) -> Option<BarGranularity> {
        if v == "day"@ {
            Some(BarGranularity::Day)
        } else if v == "week"@ {
            Some(BarGranularity::Week)
        } else if v == "month"@ {
            Some(BarGranularity::Month)
        } else if v == "year"@ {
            Some(BarGranularity::Year)
        } else {
            None
        }
    }
}

/// The key of a calendar date: `year * 10000 + month * 100 + day`.
pub open spec fn date_key_spec(year: int, month: int, day: int) -> int {
    year * 10000 + month * 100 + day
}

/// The key of a calendar date (month 1 to 12, day 1 to 31).
pub fn date_key(year: i32, month: u32, day: u32) -> (r: i64)
    requires
        1 <= month <= 12,
        1 <= day <= 31,
    ensures
        r == date_key_spec(year as int, month as int, day as int),
{
    year as i64 * 10000 + month as i64 * 100 + day as i64
}

/// A part of a span of time that lies in one local calendar day, with the
/// day's key and the UTC offset (minutes) at its start.
#[derive(Debug, Clone, Copy, PartialEq, Eq)]
pub struct LocalDayPiece {
    pub start_utc: i64,
    pub end_utc: i64,
    pub source_local_date: i64,
    pub utc_offset_minutes: i32,
}

/// The key of the proleptic Gregorian date `days` days after 1970-01-01
/// (before it, when negative).
pub open spec fn civil_date_key(days: int) -> int {
    let z = days + 719468;
    let era = z / 146097;
    let doe = z - era * 146097;
    let yoe = (doe - doe / 1460 + doe / 36524 - doe / 146096) / 365;
    let doy = doe - (365 * yoe + yoe / 4 - yoe / 100);
    let mp = (5 * doy + 2) / 153;
    let d = doy - (153 * mp + 2) / 5 + 1;
    let m = if mp < 10 { mp + 3 } else { mp - 9 };
    let y = yoe + era * 400 + if m <= 2 { 1int } else { 0int };
    date_key_spec(y, m, d)
}

/// The local date and the UTC offset (seconds) at an instant, as chrono's
/// `Local.timestamp_opt(ts, 0).single()` gives them. Trusted: which offset
/// applies depends on the machine's time zone, so of the offset only the
/// range chrono documents is stated (less than a day); the date is the
/// calendar date of the local time, which is the instant shifted by the
/// offset (chrono's local time is UTC plus `local_minus_utc`), so its day
/// number is `(ts + off)` divided by 86400, rounded down; month 1 to 12, day
/// 1 to 31. `None` when the zone gives no single local time.
#[verifier::external_body]
fn local_date_at(ts: i64) -> (r: Option<(i32, u32, u32, i32)>)
    ensures
        r matches Some((_, m, d, off)) ==> 1 <= m <= 12 && 1 <= d <= 31 && -86400 < off < 86400,
        r matches Some((y, m, d, off)) ==> date_key_spec(y as int, m as int, d as int) == civil_date_key(
            (ts + off) / 86400,
        ),
{
    let local = chrono::Local.timestamp_opt(ts, 0).single()?;
    Some((local.year(), local.month(), local.day(), local.offset().local_minus_utc()))
}

/// The instant at which the local day after the given date begins: chrono's
/// `NaiveDate::succ_opt`, at 00:00, placed in the machine's time zone with
/// `Local.from_local_datetime(..).earliest()`. Trusted: it depends on the
/// time zone, so nothing is stated of it; `None` when chrono gives none.
#[verifier::external_body]
fn local_midnight_after(year: i32, month: u32, day: u32) -> (r: Option<i64>) {
    let next = chrono::NaiveDate::from_ymd_opt(year, month, day)?.succ_opt()?;
    Some(chrono::Local.from_local_datetime(&next.and_hms_opt(0, 0, 0)?).earliest()?.timestamp())
}

/// A UTC offset in seconds as whole minutes, rounded toward zero.
pub open spec fn offset_minutes(seconds: int) -> int {
    if seconds >= 0 {
        seconds / 60
    } else {
        -((-seconds) / 60)
    }
}

/// The piece of `[cursor, end_utc)` in the local day `local` (year, month,
/// day and UTC offset in seconds at `cursor`), which ends at the next local
/// midnight `next_midnight` or at `end_utc`; none when that midnight is not
/// after `cursor`.
pub open spec fn local_day_piece_spec(cursor: i64, end_utc: i64, local: (i32, u32, u32, i32), next_midnight: i64) -> Option<LocalDayPiece> {
    if next_midnight <= cursor {
        None
    } else {
        Some(LocalDayPiece {
            start_utc: cursor,
            end_utc: if next_midnight < end_utc { next_midnight } else { end_utc },
            source_local_date: date_key_spec(local.0 as int, local.1 as int, local.2 as int) as i64,
            utc_offset_minutes: offset_minutes(local.3 as int) as i32,
        })
    }
}

/// Builds the piece that starts at `cursor`, from what the local clock
/// reports there (see `local_day_piece_spec`).
pub fn local_day_piece(cursor: i64, end_utc: i64, local: (i32, u32, u32, i32), next_midnight: i64) -> (r: Option<LocalDayPiece>)
    requires
        1 <= local.1 <= 12,
        1 <= local.2 <= 31,
    ensures
        r == local_day_piece_spec(cursor, end_utc, local, next_midnight),
{
    if next_midnight <= cursor {
        return None;
    }
    let (year, month, day, offset_secs) = local;
    let piece_end = if next_midnight < end_utc { next_midnight } else { end_utc };
    let secs = offset_secs as i64;
    let minutes: i64 = if secs >= 0 { secs / 60 } else { 0 - (0 - secs) / 60 };
    Some(LocalDayPiece {
        start_utc: cursor,
        end_utc: piece_end,
        source_local_date: date_key(year, month, day),
        utc_offset_minutes: minutes as i32,
    })
}

/// Whether a piece is the one a local clock reading at its start and the
/// next midnight give, for a span that ends at `end_utc`: the reading's date
/// is the calendar date of the piece's start shifted by the reading's offset.
pub open spec fn is_local_day_piece(p: LocalDayPiece, end_utc: i64) -> bool {
    exists|local: (i32, u32, u32, i32), next: i64|
        1 <= local.1 <= 12 && 1 <= local.2 <= 31 && -86400 < local.3 < 86400
            && date_key_spec(local.0 as int, local.1 as int, local.2 as int) == civil_date_key(
            (p.start_utc + local.3) / 86400,
        ) && #[trigger] local_day_piece_spec(p.start_utc, end_utc, local, next) == Some(p)
}

/// Each piece is filed under the local date at its own start: its date key
/// is the calendar date of its start shifted by a UTC offset of less than a
/// day, the one its minutes record (rounded toward zero); the piece ends
/// after it starts, at most at the end of the span.
pub proof fn law_piece_is_filed_under_its_start_day(p: LocalDayPiece, end_utc: i64)
    requires
        is_local_day_piece(p, end_utc),
    ensures
        exists|off: int|
            -86400 < off < 86400 && offset_minutes(off) == p.utc_offset_minutes as int
                && p.source_local_date as int == #[trigger] civil_date_key((p.start_utc + off) / 86400),
        p.start_utc < p.end_utc || p.end_utc == end_utc,
        p.end_utc <= end_utc,
{
    let (local, next) = choose|local: (i32, u32, u32, i32), next: i64|
        1 <= local.1 <= 12 && 1 <= local.2 <= 31 && -86400 < local.3 < 86400
            && date_key_spec(local.0 as int, local.1 as int, local.2 as int) == civil_date_key(
            (p.start_utc + local.3) / 86400,
        ) && #[trigger] local_day_piece_spec(p.start_utc, end_utc, local, next) == Some(p);
    let off = local.3 as int;
    assert(p.source_local_date as int == date_key_spec(local.0 as int, local.1 as int, local.2 as int));
    assert(civil_date_key((p.start_utc + off) / 86400) == p.source_local_date as int);
}

/// The pieces cover `[start, end)` in order, each non-empty, each starting
/// where the one before ends.
pub open spec fn tiles(pieces: Seq<LocalDayPiece>, start: int, end: int) -> bool {
    &&& pieces.len() > 0
    &&& pieces[0].start_utc == start
    &&& pieces.last().end_utc == end
    &&& forall|i: int| 0 <= i < pieces.len() ==> #[trigger] pieces[i].start_utc < pieces[i].end_utc
    &&& forall|i: int| 0 <= i < pieces.len() - 1 ==> #[trigger] pieces[i].end_utc == pieces[i + 1].start_utc
}

/// Splits `[start_utc, end_utc)` at local midnights, one piece per local
/// day: each piece is the one `local_day_piece` builds from the local date,
/// UTC offset and next midnight the machine's time zone reports at its
/// start. An empty or reversed span gives no piece. `None` when the time
/// zone gives no local time or no later midnight for an instant of the span.
pub fn split_local_days(start_utc: i64, end_utc: i64) -> (r: Option<Vec<LocalDayPiece>>)
    ensures
        end_utc <= start_utc ==> (r matches Some(v) && v@.len() == 0),
        start_utc < end_utc ==> (r matches Some(v) ==> tiles(v@, start_utc as int, end_utc as int)),
        r matches Some(v) ==> forall|i: int| 0 <= i < v@.len() ==> #[trigger] is_local_day_piece(v@[i], end_utc),
{
    let mut pieces: Vec<LocalDayPiece> = Vec::new();
    if end_utc <= start_utc {
        return Some(pieces);
    }
    let mut cursor = start_utc;
    while cursor < end_utc
        invariant
            start_utc < end_utc,
            start_utc <= cursor <= end_utc,
            pieces@.len() == 0 ==> cursor == start_utc,
            pieces@.len() > 0 ==> pieces@[0].start_utc == start_utc && pieces@.last().end_utc == cursor,
            forall|i: int| 0 <= i < pieces@.len() ==> #[trigger] pieces@[i].start_utc < pieces@[i].end_utc,
            forall|i: int| 0 <= i < pieces@.len() - 1 ==> #[trigger] pieces@[i].end_utc == pieces@[i + 1].start_utc,
            forall|i: int| 0 <= i < pieces@.len() ==> #[trigger] is_local_day_piece(pieces@[i], end_utc),
        decreases end_utc - cursor,
    {
        let local = match local_date_at(cursor) {
            Some(t) => t,
            None => {
                return None;
            },
        };
        let next = match local_midnight_after(local.0, local.1, local.2) {
            Some(n) => n,
            None => {
                return None;
            },
        };
        let piece = match local_day_piece(cursor, end_utc, local, next) {
            Some(p) => p,
            None => {
                return None;
            },
        };
        assert(is_local_day_piece(piece, end_utc)) by {
            assert(local_day_piece_spec(piece.start_utc, end_utc, local, next) == Some(piece));
            assert(date_key_spec(local.0 as int, local.1 as int, local.2 as int) == civil_date_key(
                (piece.start_utc + local.3) / 86400,
            ));
        }
        let ghost before = pieces@;
        pieces.push(piece);
        assert(forall|i: int| 0 <= i < before.len() ==> pieces@[i] == before[i]);
        cursor = piece.end_utc;
    }
    Some(pieces)
}

/// The year, month and day of a date key, before any check that they make a
/// calendar date.
pub fn date_parts(key: i64) -> (r: (i64, i64, i64))
    requires
        key >= 0,
    ensures
        r.0 == key / 10000 && r.1 == (key / 100) % 100 && r.2 == key % 100,
{
    (key / 10000, (key / 100) % 100, key % 100)
}

/// The date keys of a year: from its January 1st up to, not including, the
/// next year's January 1st.
pub fn year_key_range(year: i32) -> (r: (i64, i64))
    ensures
        r.0 == year as int * 10000 + 101,
        r.1 == (year as int + 1) * 10000 + 101,
{
    (year as i64 * 10000 + 101, (year as i64 + 1) * 10000 + 101)
}

/// Records restored into a year must all fall in that year.
pub fn check_year_records(year: i32, records: &[crate::records::SegmentRecord]) -> (r: Result<(), String>)
    ensures
        r is Ok <==> forall|i: int| 0 <= i < records@.len() ==>
            year as int * 10000 + 101 <= #[trigger] records@[i].source_local_date < (year as int + 1) * 10000 + 101,
        r matches Err(m) ==> m@ == "恢复数据包含其他年份"@,
{
    let (low, high) = year_key_range(year);
    let mut i: usize = 0;
    while i < records.len()
        invariant
            low == year as int * 10000 + 101,
            high == (year as int + 1) * 10000 + 101,
            i <= records@.len(),
            forall|k: int| 0 <= k < i ==> low <= #[trigger] records@[k].source_local_date < high,
        decreases records.len() - i,
    {
        if records[i].source_local_date < low || records[i].source_local_date >= high {
            return Err("恢复数据包含其他年份".to_owned());
        }
        i = i + 1;
    }
    Ok(())
}

/// Whether storing a foreground application changes its system display
/// name, which bumps the device's metadata revision: a name is given and it
/// differs from the stored one.
pub fn display_name_changed(new_name: Option<&str>, stored: &Option<String>) -> (r: bool)
    ensures
        r == (new_name matches Some(n) && !(stored matches Some(s) && s@ == n@)),
{
    match new_name {
        Some(n) => match stored {
            Some(s) => *s != n.to_owned(),
            None => true,
        },
        None => false,
    }
}

/// Whether time is recorded for an application: only positive durations of
/// applications that are not ignored; the application must be one of this
/// device's.
pub fn duration_recorded(duration_secs: i64, ignored: bool, origin_device_id: &str, local_id: &str) -> (r: Result<bool, String>)
    ensures
        duration_secs <= 0 ==> r == Ok::<bool, String>(false),
        duration_secs > 0 && ignored ==> r == Ok::<bool, String>(false),
        duration_secs > 0 && !ignored ==> match r {
            Ok(b) => b && origin_device_id@ == local_id@,
            Err(m) => origin_device_id@ != local_id@ && m@ == "不能为远端来源应用写入本机会话"@,
        },
{
    if duration_secs <= 0 {
        return Ok(false);
    }
    if ignored {
        return Ok(false);
    }
    if origin_device_id.to_owned() != local_id.to_owned() {
        return Err("不能为远端来源应用写入本机会话".to_owned());
    }
    Ok(true)
}

/// What storing a usage fact does: nothing for an empty interval; a fact
/// already stored under the same key is accepted when identical and refused
/// otherwise.
pub fn segment_insert_outcome(start: i64, end: i64, inserted: bool, same_as_stored: bool) -> (r: Result<bool, String>)
    ensures
        end <= start ==> r == Ok::<bool, String>(false),
        end > start && inserted ==> r == Ok::<bool, String>(true),
        end > start && !inserted && same_as_stored ==> r == Ok::<bool, String>(false),
        end > start && !inserted && !same_as_stored ==> (r matches Err(m) && m@ == "会话唯一键相同但内容不同"@),
{
    if end <= start {
        return Ok(false);
    }
    if inserted {
        return Ok(true);
    }
    if same_as_stored {
        return Ok(false);
    }
    Err("会话唯一键相同但内容不同".to_owned())
}

/// A device name, trimmed; a blank one is refused.
pub fn device_name_or_error(name: &str) -> (r: Result<String, String>)
    ensures
        match r {
            Ok(n) => trim(name@, Strip::WhiteSpace).len() > 0 && n@ == trim(name@, Strip::WhiteSpace),
            Err(m) => trim(name@, Strip::WhiteSpace).len() == 0 && m@ == "设备名称不能为空"@,
        },
{
    let t = trim_chars(chars_of(name).as_slice(), Strip::WhiteSpace);
    if t.len() == 0 {
        return Err("设备名称不能为空".to_owned());
    }
    Ok(string_from_chars(t.as_slice()))
}

/// The longest error text kept in the sync history, in characters.
pub const HISTORY_ERROR_CHARS: usize = 300;

/// The error text kept in the sync history: its first 300 characters.
pub fn history_error_summary(error: &str) -> (r: String)
    ensures
        r@ == (if error@.len() <= HISTORY_ERROR_CHARS { error@ } else { error@.take(HISTORY_ERROR_CHARS as int) }),
{
    let v = chars_of(error);
    if v.len() <= HISTORY_ERROR_CHARS {
        return error.to_owned();
    }
    let mut out: Vec<char> = Vec::new();
    let mut i: usize = 0;
    while i < HISTORY_ERROR_CHARS
        invariant
            v@ == error@,
            HISTORY_ERROR_CHARS < v@.len(),
            i <= HISTORY_ERROR_CHARS,
            out@ == v@.take(i as int),
        decreases HISTORY_ERROR_CHARS - i,
    {
        out.push(v[i]);
        i = i + 1;
        assert(out@ =~= v@.take(i as int));
    }
    string_from_chars(out.as_slice())
}

/// Only this device's applications can have their metadata changed here.
pub fn check_local_owner(owner: &str, local_id: &str) -> (r: Result<(), String>)
    ensures
        r is Ok <==> owner@ == local_id@,
        r matches Err(m) ==> m@ == "不能修改其他设备的应用元数据"@,
{
    if owner.to_owned() != local_id.to_owned() {
        return Err("不能修改其他设备的应用元数据".to_owned());
    }
    Ok(())
}

} // verus!
