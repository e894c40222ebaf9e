//! Shell completion candidates: local branches, the Jira issues and pull
//! requests recorded for them, matched case-insensitively by prefix.
use vstd::prelude::*;

use crate::lex::{sorted_set_of, sorted_strictly, views};
use crate::strs::{chars_of, decimal, decimal_string, push_str, starts_with, starts_with_exec, str_eq, to_lowercase, unicode_lowercase};

verus! {

/// The type of completion candidate, used for help text.
#[derive(Clone, Copy, Debug, PartialEq, Eq, Structural)]
pub enum CandidateKind {
    /// A local Git branch
    Branch,
    /// A Jira issue key (e.g., PROJ-123)
    JiraIssue,
    /// A GitHub PR ID (e.g., #123)
    GitHubPr,
}

pub open spec fn help_text_spec(k: CandidateKind) -> Seq<char> {
    match k {
        CandidateKind::Branch => "branch"@,
        CandidateKind::JiraIssue => "Jira issue"@,
        CandidateKind::GitHubPr => "GitHub PR"@,
    }
}

impl CandidateKind {
    /// Returns a short description for use in completion help text.
    pub fn help_text(self) -> (s: &'static str)
        ensures
            s@ == help_text_spec(self),
    {
        match self {
            CandidateKind::Branch => "branch",
            CandidateKind::JiraIssue => "Jira issue",
            CandidateKind::GitHubPr => "GitHub PR",
        }
    }
}

/// A completion candidate with its type.
#[derive(Clone, Debug)]
pub struct TypedCandidate {
    /// The value to complete to.
    pub value: String,
    /// Pre-computed lowercase value for case-insensitive matching.
    value_lower: String,
    /// The type of candidate.
    pub kind: CandidateKind,
}

impl TypedCandidate {
    pub closed spec fn lower_spec(&self) -> Seq<char> {
        self.value_lower@
    }

    pub closed spec fn value_spec(&self) -> Seq<char> {
        self.value@
    }

    pub closed spec fn kind_spec(&self) -> CandidateKind {
        self.kind
    }

    /// Create a new typed candidate.
    pub fn new(value: &str, kind: CandidateKind) -> (c: Self)
        ensures
            c.value_spec() == value@,
            c.kind_spec() == kind,
            c.lower_spec() == unicode_lowercase(value@),
    {
        TypedCandidate { value: value.to_owned(), value_lower: to_lowercase(value), kind }
    }

    /// A field-by-field copy.
    pub fn duplicate(&self) -> (r: Self)
        ensures
            r == *self,
    {
        TypedCandidate { value: self.value.clone(), value_lower: self.value_lower.clone(), kind: self.kind }
    }

    /// Returns whether this candidate's value starts with the given lowercase prefix.
    pub fn matches_prefix(&self, prefix_lower: &str) -> (b: bool)
        ensures
            b == starts_with(self.lower_spec(), prefix_lower@),
    {
        let v = chars_of(self.value_lower.as_str());
        let p = chars_of(prefix_lower);
        starts_with_exec(v.as_slice(), p.as_slice())
    }
}

/// The values of the candidates whose lower-cased value starts with `prefix`.
pub open spec fn matching(cands: Seq<TypedCandidate>, prefix: Seq<char>) -> Seq<Seq<char>>
    decreases cands.len(),
{
    if cands.len() == 0 {
        seq![]
    } else if starts_with(cands.last().lower_spec(), prefix) {
        matching(cands.drop_last(), prefix).push(cands.last().value_spec())
    } else {
        matching(cands.drop_last(), prefix)
    }
}

/// The candidates that complete `prefix`, compared in lower case, in order.
pub fn filter_by_prefix(candidates: &Vec<TypedCandidate>, prefix: &str) -> (r: Vec<String>)
    ensures
        views(r@) == matching(candidates@, unicode_lowercase(prefix@)),
{
    let lower = to_lowercase(prefix);
    let mut r: Vec<String> = Vec::new();
    let mut i: usize = 0;
    while i < candidates.len()
        invariant
            i <= candidates.len(),
            lower@ == unicode_lowercase(prefix@),
            views(r@) == matching(candidates@.take(i as int), lower@),
        decreases candidates.len() - i,
    {
        assert(candidates@.take(i + 1).drop_last() =~= candidates@.take(i as int));
        assert(candidates@.take(i + 1).last() == candidates@[i as int]);
        if candidates[i].matches_prefix(lower.as_str()) {
            let ghost before = r@;
            r.push(candidates[i].value.clone());
            assert(views(r@) =~= views(before).push(candidates@[i as int].value_spec()));
        }
        i = i + 1;
    }
    assert(candidates@.take(candidates.len() as int) =~= candidates@);
    r
}

/// The candidates whose lower-cased value starts with `prefix`, in order.
pub open spec fn matching_candidates(cands: Seq<TypedCandidate>, prefix: Seq<char>) -> Seq<TypedCandidate>
    decreases cands.len(),
{
    if cands.len() == 0 {
        seq![]
    } else if starts_with(cands.last().lower_spec(), prefix) {
        matching_candidates(cands.drop_last(), prefix).push(cands.last())
    } else {
        matching_candidates(cands.drop_last(), prefix)
    }
}

/// The candidates that complete what was typed so far, compared in lower
/// case, in order.
fn complete_from(candidates: &Vec<TypedCandidate>, current: &str) -> (r: Vec<TypedCandidate>)
    ensures
        r@ == matching_candidates(candidates@, unicode_lowercase(current@)),
{
    let lower = to_lowercase(current);
    let mut r: Vec<TypedCandidate> = Vec::new();
    let mut i: usize = 0;
    while i < candidates.len()
        invariant
            i <= candidates.len(),
            lower@ == unicode_lowercase(current@),
            r@ == matching_candidates(candidates@.take(i as int), lower@),
        decreases candidates.len() - i,
    {
        assert(candidates@.take(i + 1).drop_last() =~= candidates@.take(i as int));
        assert(candidates@.take(i + 1).last() == candidates@[i as int]);
        if candidates[i].matches_prefix(lower.as_str()) {
            r.push(candidates[i].duplicate());
        }
        i = i + 1;
    }
    assert(candidates@.take(candidates.len() as int) =~= candidates@);
    r
}

/// Completes a target: branch names, Jira issue keys and pull request
/// numbers (the candidates `collect_typed_candidates` gathers).
#[derive(Clone, Copy, Debug)]
pub struct TargetCompleter;

impl TargetCompleter {
    /// The candidates that complete `current`.
    pub fn complete(&self, candidates: &Vec<TypedCandidate>, current: &str) -> (r: Vec<TypedCandidate>)
        ensures
            r@ == matching_candidates(candidates@, unicode_lowercase(current@)),
    {
        complete_from(candidates, current)
    }
}

/// Completes branch names only (the candidates `collect_branch_candidates`
/// gathers).
#[derive(Clone, Copy, Debug)]
pub struct BranchCompleter;

impl BranchCompleter {
    /// The candidates that complete `current`.
    pub fn complete(&self, candidates: &Vec<TypedCandidate>, current: &str) -> (r: Vec<TypedCandidate>)
        ensures
            r@ == matching_candidates(candidates@, unicode_lowercase(current@)),
    {
        complete_from(candidates, current)
    }
}

/// Whether `name` is among the strings.
pub open spec fn listed(names: Seq<Seq<char>>, name: Seq<char>) -> bool {
    names.contains(name)
}

/// The Jira keys recorded for branches that exist locally.
pub open spec fn jira_candidates(bs: Seq<Seq<char>>, jira: Seq<(String, String)>) -> Seq<Seq<char>>
    decreases jira.len(),
{
    if jira.len() == 0 {
        seq![]
    } else if listed(bs, jira.last().1@) {
        jira_candidates(bs, jira.drop_last()).push(jira.last().0@)
    } else {
        jira_candidates(bs, jira.drop_last())
    }
}

/// The pull requests recorded for branches that exist locally, each as `#n`
/// and as `n`.
pub open spec fn pr_candidates(bs: Seq<Seq<char>>, prs: Seq<(String, Option<u32>)>) -> Seq<Seq<char>>
    decreases prs.len(),
{
    if prs.len() == 0 {
        seq![]
    } else {
        let rest = pr_candidates(bs, prs.drop_last());
        match prs.last().1 {
            Some(n) => if listed(bs, prs.last().0@) {
                rest.push(seq!['#'] + decimal(n as nat)).push(decimal(n as nat))
            } else {
                rest
            },
            None => rest,
        }
    }
}

/// Every candidate with its kind, branches first, then Jira keys, then pull
/// requests.
pub open spec fn raw_candidates(
    bs: Seq<Seq<char>>,
    jira: Seq<(String, String)>,
    prs: Seq<(String, Option<u32>)>,
) -> Seq<(Seq<char>, CandidateKind)> {
    with_kind(bs, CandidateKind::Branch) + with_kind(jira_candidates(bs, jira), CandidateKind::JiraIssue) + with_kind(
        pr_candidates(bs, prs),
        CandidateKind::GitHubPr,
    )
}

pub open spec fn raw_view(v: Seq<(String, CandidateKind)>) -> Seq<(Seq<char>, CandidateKind)> {
    v.map_values(|e: (String, CandidateKind)| (e.0@, e.1))
}

pub open spec fn with_kind(v: Seq<Seq<char>>, k: CandidateKind) -> Seq<(Seq<char>, CandidateKind)> {
    v.map_values(|x: Seq<char>| (x, k))
}

/// The kind a value first appears with.
pub open spec fn first_kind(raw: Seq<(Seq<char>, CandidateKind)>, v: Seq<char>) -> Option<CandidateKind>
    decreases raw.len(),
{
    if raw.len() == 0 {
        None
    } else {
        match first_kind(raw.drop_last(), v) {
            Some(k) => Some(k),
            None => if raw.last().0 == v {
                Some(raw.last().1)
            } else {
                None
            },
        }
    }
}

pub open spec fn raw_values(raw: Seq<(Seq<char>, CandidateKind)>) -> Seq<Seq<char>> {
    raw.map_values(|e: (Seq<char>, CandidateKind)| e.0)
}

pub open spec fn cand_values(c: Seq<TypedCandidate>) -> Seq<Seq<char>> {
    c.map_values(|t: TypedCandidate| t.value_spec())
}

/// Candidates sorted by value without repeats, each with the kind its value
/// first appears with, and the value's lower-case form for matching.
pub open spec fn sorted_candidates(r: Seq<TypedCandidate>, raw: Seq<(Seq<char>, CandidateKind)>) -> bool {
    &&& sorted_strictly(cand_values(r))
    &&& cand_values(r).to_set() == raw_values(raw).to_set()
    &&& forall|i: int| 0 <= i < r.len() ==> Some(#[trigger] r[i].kind_spec()) == first_kind(raw, r[i].value_spec())
    &&& forall|i: int| 0 <= i < r.len() ==> #[trigger] r[i].lower_spec() == unicode_lowercase(r[i].value_spec())
}

fn contains_name(names: &Vec<String>, name: &String) -> (b: bool)
    ensures
        b == views(names@).contains(name@),
{
    let mut i: usize = 0;
    while i < names.len()
        invariant
            i <= names.len(),
            forall|k: int| 0 <= k < i ==> names@[k]@ != name@,
        decreases names.len() - i,
    {
        if str_eq(names[i].as_str(), name.as_str()) {
            assert(views(names@)[i as int] == name@);
            return true;
        }
        i = i + 1;
    }
    proof {
        if views(names@).contains(name@) {
            let k = choose|k: int| 0 <= k < views(names@).len() && views(names@)[k] == name@;
            assert(names@[k]@ == name@);
        }
    }
    false
}

fn first_kind_exec(raw: &Vec<(String, CandidateKind)>, v: &String) -> (k: Option<CandidateKind>)
    ensures
        k == first_kind(raw_view(raw@), v@),
{
    let ghost rv = raw_view(raw@);
    let mut i: usize = 0;
    while i < raw.len()
        invariant
            i <= raw.len(),
            rv == raw_view(raw@),
            first_kind(rv.take(i as int), v@) is None,
        decreases raw.len() - i,
    {
        assert(rv.take(i + 1).drop_last() =~= rv.take(i as int));
        assert(rv.take(i + 1).last() == (raw@[i as int].0@, raw@[i as int].1));
        if str_eq(raw[i].0.as_str(), v.as_str()) {
            proof {
                lemma_first_kind_prefix(rv, v@, i as int);
            }
            return Some(raw[i].1);
        }
        i = i + 1;
    }
    assert(rv.take(raw.len() as int) =~= rv);
    None
}

proof fn lemma_first_kind_prefix(raw: Seq<(Seq<char>, CandidateKind)>, v: Seq<char>, i: int)
    requires
        0 <= i < raw.len(),
        first_kind(raw.take(i), v) is None,
        raw[i].0 == v,
    ensures
        first_kind(raw, v) == Some(raw[i].1),
    decreases raw.len(),
{
    if i == raw.len() - 1 {
        assert(raw.drop_last() =~= raw.take(i));
    } else {
        assert(raw.drop_last().take(i) =~= raw.take(i));
        lemma_first_kind_prefix(raw.drop_last(), v, i);
    }
}

proof fn lemma_first_kind_found(raw: Seq<(Seq<char>, CandidateKind)>, v: Seq<char>)
    requires
        raw_values(raw).contains(v),
    ensures
        first_kind(raw, v) is Some,
    decreases raw.len(),
{
    let k = choose|k: int| 0 <= k < raw_values(raw).len() && raw_values(raw)[k] == v;
    if k < raw.len() - 1 {
        assert(raw_values(raw.drop_last())[k] == v);
        lemma_first_kind_found(raw.drop_last(), v);
    }
}

/// Orders candidates by value, drops repeats (keeping the first kind seen).
fn sort_candidates(raw: Vec<(String, CandidateKind)>) -> (r: Vec<TypedCandidate>)
    ensures
        sorted_candidates(r@, raw_view(raw@)),
{
    let ghost rv = raw_view(raw@);
    let mut values: Vec<String> = Vec::new();
    let mut i: usize = 0;
    while i < raw.len()
        invariant
            i <= raw.len(),
            rv == raw_view(raw@),
            views(values@) == raw_values(rv).take(i as int),
        decreases raw.len() - i,
    {
        let ghost before = values@;
        values.push(raw[i].0.clone());
        assert(views(values@) =~= views(before).push(raw@[i as int].0@));
        assert(raw_values(rv).take(i + 1) =~= raw_values(rv).take(i as int).push(raw@[i as int].0@));
        i = i + 1;
    }
    assert(raw_values(rv).take(raw.len() as int) =~= raw_values(rv));
    let sorted = sorted_set_of(values);
    let mut r: Vec<TypedCandidate> = Vec::new();
    let mut j: usize = 0;
    while j < sorted.len()
        invariant
            j <= sorted.len(),
            rv == raw_view(raw@),
            sorted_strictly(views(sorted@)),
            views(sorted@).to_set() == raw_values(rv).to_set(),
            cand_values(r@) == views(sorted@).take(j as int),
            forall|k: int| 0 <= k < r@.len() ==> Some(#[trigger] r@[k].kind_spec()) == first_kind(rv, r@[k].value_spec()),
            forall|k: int| 0 <= k < r@.len() ==> #[trigger] r@[k].lower_spec() == unicode_lowercase(r@[k].value_spec()),
        decreases sorted.len() - j,
    {
        proof {
            assert(views(sorted@).to_set().contains(views(sorted@)[j as int]));
            lemma_first_kind_found(rv, sorted@[j as int]@);
        }
        let kind = match first_kind_exec(&raw, &sorted[j]) {
            Some(k) => k,
            None => CandidateKind::Branch,
        };
        let ghost before = r@;
        r.push(TypedCandidate::new(sorted[j].as_str(), kind));
        assert(cand_values(r@) =~= cand_values(before).push(sorted@[j as int]@));
        j = j + 1;
        assert(cand_values(r@) =~= views(sorted@).take(j as int));
    }
    assert(views(sorted@).take(sorted.len() as int) =~= views(sorted@));
    r
}

/// Every completion candidate: the local branches, the Jira keys recorded
/// for branches that exist locally, and the pull requests recorded for them
/// (as `#n` and as `n`); sorted by value, each value once, with the kind it
/// first appears with in that order.
pub fn collect_typed_candidates(
    local_branches: &Vec<String>,
    jira_index: &Vec<(String, String)>,
    branch_prs: &Vec<(String, Option<u32>)>,
) -> (r: Vec<TypedCandidate>)
    ensures
        sorted_candidates(r@, raw_candidates(views(local_branches@), jira_index@, branch_prs@)),
{
    let ghost bs = views(local_branches@);
    let mut raw: Vec<(String, CandidateKind)> = Vec::new();
    let mut i: usize = 0;
    while i < local_branches.len()
        invariant
            i <= local_branches.len(),
            bs == views(local_branches@),
            raw_view(raw@) == with_kind(bs.take(i as int), CandidateKind::Branch),
        decreases local_branches.len() - i,
    {
        let ghost before = raw@;
        raw.push((local_branches[i].clone(), CandidateKind::Branch));
        assert(raw_view(raw@) =~= raw_view(before).push((local_branches@[i as int]@, CandidateKind::Branch)));
        assert(with_kind(bs.take(i + 1), CandidateKind::Branch) =~= with_kind(bs.take(i as int), CandidateKind::Branch).push(
            (bs[i as int], CandidateKind::Branch),
        ));
        i = i + 1;
    }
    assert(bs.take(local_branches.len() as int) =~= bs);
    let ghost part1 = raw_view(raw@);
    let mut j: usize = 0;
    while j < jira_index.len()
        invariant
            j <= jira_index.len(),
            bs == views(local_branches@),
            raw_view(raw@) == part1 + with_kind(jira_candidates(bs, jira_index@.take(j as int)), CandidateKind::JiraIssue),
        decreases jira_index.len() - j,
    {
        assert(jira_index@.take(j + 1).drop_last() =~= jira_index@.take(j as int));
        assert(jira_index@.take(j + 1).last() == jira_index@[j as int]);
        let ghost before = raw@;
        let ghost jc = jira_candidates(bs, jira_index@.take(j as int));
        if contains_name(local_branches, &jira_index[j].1) {
            raw.push((jira_index[j].0.clone(), CandidateKind::JiraIssue));
            assert(raw_view(raw@) =~= raw_view(before).push((jira_index@[j as int].0@, CandidateKind::JiraIssue)));
            assert(with_kind(jc.push(jira_index@[j as int].0@), CandidateKind::JiraIssue) =~= with_kind(
                jc,
                CandidateKind::JiraIssue,
            ).push((jira_index@[j as int].0@, CandidateKind::JiraIssue)));
        }
        j = j + 1;
    }
    assert(jira_index@.take(jira_index.len() as int) =~= jira_index@);
    let ghost part2 = raw_view(raw@);
    let mut k: usize = 0;
    while k < branch_prs.len()
        invariant
            k <= branch_prs.len(),
            bs == views(local_branches@),
            raw_view(raw@) == part2 + with_kind(pr_candidates(bs, branch_prs@.take(k as int)), CandidateKind::GitHubPr),
        decreases branch_prs.len() - k,
    {
        assert(branch_prs@.take(k + 1).drop_last() =~= branch_prs@.take(k as int));
        assert(branch_prs@.take(k + 1).last() == branch_prs@[k as int]);
        match branch_prs[k].1 {
            Some(n) => {
                if contains_name(local_branches, &branch_prs[k].0) {
                    let digits = decimal_string(n as u64);
                    let mut with_hash = "#".to_owned();
                    push_str(&mut with_hash, digits.as_str());
                    proof {
                        reveal_strlit("#");
                        assert("#"@ =~= seq!['#']);
                    }
                    let ghost before = raw@;
                    let ghost pc = pr_candidates(bs, branch_prs@.take(k as int));
                    let ghost h = with_hash@;
                    let ghost d = digits@;
                    raw.push((with_hash, CandidateKind::GitHubPr));
                    raw.push((digits, CandidateKind::GitHubPr));
                    assert(raw_view(raw@) =~= raw_view(before).push((h, CandidateKind::GitHubPr)).push(
                        (d, CandidateKind::GitHubPr),
                    ));
                    assert(with_kind(pc.push(h).push(d), CandidateKind::GitHubPr) =~= with_kind(
                        pc,
                        CandidateKind::GitHubPr,
                    ).push((h, CandidateKind::GitHubPr)).push((d, CandidateKind::GitHubPr)));
                }
            },
            None => {},
        }
        k = k + 1;
    }
    assert(branch_prs@.take(branch_prs.len() as int) =~= branch_prs@);
    sort_candidates(raw)
}

/// Every completion candidate's value, sorted.
pub fn collect_candidates(
    local_branches: &Vec<String>,
    jira_index: &Vec<(String, String)>,
    branch_prs: &Vec<(String, Option<u32>)>,
) -> (r: Vec<String>)
    ensures
        sorted_strictly(views(r@)),
        views(r@).to_set() == raw_values(raw_candidates(views(local_branches@), jira_index@, branch_prs@)).to_set(),
{
    let cands = collect_typed_candidates(local_branches, jira_index, branch_prs);
    let mut r: Vec<String> = Vec::new();
    let mut i: usize = 0;
    while i < cands.len()
        invariant
            i <= cands.len(),
            views(r@) == cand_values(cands@).take(i as int),
        decreases cands.len() - i,
    {
        let ghost before = r@;
        r.push(cands[i].value.clone());
        assert(views(r@) =~= views(before).push(cands@[i as int].value_spec()));
        i = i + 1;
        assert(views(r@) =~= cand_values(cands@).take(i as int));
    }
    assert(cand_values(cands@).take(cands.len() as int) =~= cand_values(cands@));
    r
}

/// The values `collect_candidates` lists are exactly the values of the
/// candidates `collect_typed_candidates` gives for the same branches and
/// records, in the same order.
pub proof fn lemma_candidates_are_typed_values(
    values: Seq<Seq<char>>,
    typed: Seq<TypedCandidate>,
    raw: Seq<(Seq<char>, CandidateKind)>,
)
    requires
        sorted_strictly(values),
        values.to_set() == raw_values(raw).to_set(),
        sorted_candidates(typed, raw),
    ensures
        values == cand_values(typed),
{
    crate::lex::lemma_sorted_sets_equal(values, cand_values(typed));
}

/// Only the local branches as candidates, sorted, each once.
pub fn collect_branch_candidates(local_branches: &Vec<String>) -> (r: Vec<TypedCandidate>)
    ensures
        sorted_candidates(r@, with_kind(views(local_branches@), CandidateKind::Branch)),
{
    let mut raw: Vec<(String, CandidateKind)> = Vec::new();
    let mut i: usize = 0;
    while i < local_branches.len()
        invariant
            i <= local_branches.len(),
            raw_view(raw@) == with_kind(views(local_branches@).take(i as int), CandidateKind::Branch),
        decreases local_branches.len() - i,
    {
        let ghost before = raw@;
        raw.push((local_branches[i].clone(), CandidateKind::Branch));
        assert(raw_view(raw@) =~= raw_view(before).push((local_branches@[i as int]@, CandidateKind::Branch)));
        assert(with_kind(views(local_branches@).take(i + 1), CandidateKind::Branch) =~= with_kind(
            views(local_branches@).take(i as int),
            CandidateKind::Branch,
        ).push((local_branches@[i as int]@, CandidateKind::Branch)));
        i = i + 1;
    }
    assert(views(local_branches@).take(local_branches.len() as int) =~= views(local_branches@));
    sort_candidates(raw)
}

} // verus!
