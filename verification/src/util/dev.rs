//! Line statistics of source code, per language.

use crate::prelude::{contains, decimal, is_part_of, u64_to_string};
use vstd::prelude::*;
use vstd::string::*;

verus! {

/// Lines of code and of comments counted for one language. A count of zero
/// is stored as `None`.
#[derive(Clone, Debug)]
pub struct LangStats {
    name: String,
    loc: Option<usize>,
    comments: Option<usize>,
}

/// `Some(n)` for a positive count, `None` for zero.
pub open spec fn non_zero(n: usize) -> Option<usize> {
    if n == 0 {
        None
    } else {
        Some(n)
    }
}

impl LangStats {
    /// No stored count is zero.
    pub closed spec fn wf(&self) -> bool {
        &&& self.loc != Some(0usize)
        &&& self.comments != Some(0usize)
    }

    /// The language's name.
    pub closed spec fn spec_name(&self) -> Seq<char> {
        self.name@
    }

    /// The lines of code, if there are any.
    pub closed spec fn spec_loc(&self) -> Option<usize> {
        self.loc
    }

    /// The comment lines, if there are any.
    pub closed spec fn spec_comments(&self) -> Option<usize> {
        self.comments
    }

    /// Statistics for the language `name` from raw line counts.
    pub fn new(name: String, loc: usize, comments: usize) -> (r: Self)
        ensures
            r.wf(),
            r.spec_name() == name@,
            r.spec_loc() == non_zero(loc),
            r.spec_comments() == non_zero(comments),
    {
        LangStats {
            name,
            loc: if loc == 0 { None } else { Some(loc) },
            comments: if comments == 0 { None } else { Some(comments) },
        }
    }

    /// The language's name.
    pub fn name(&self) -> (r: &str)
        ensures
            r@ == self.spec_name(),
    {
        self.name.as_str()
    }

    /// The lines of code, if there are any.
    pub fn loc(&self) -> (r: Option<usize>)
        ensures
            r == self.spec_loc(),
    {
        self.loc
    }

    /// The comment lines, if there are any.
    pub fn comments(&self) -> (r: Option<usize>)
        ensures
            r == self.spec_comments(),
    {
        self.comments
    }
}

/// The part of a file's name by which a readme is known.
pub const README: &'static str = "README";

/// The index of the first of `names` from `from` on that holds `README`.
pub open spec fn first_readme(names: Seq<String>, from: int) -> Option<int>
    decreases names.len() - from,
{
    if from < 0 || from >= names.len() {
        None
    } else if is_part_of(README@, names[from]@) {
        Some(from)
    } else {
        first_readme(names, from + 1)
    }
}

/// The index of the readme among the files named `file_names`: the first
/// whose name holds `README`.
pub fn find_readme(file_names: &Vec<String>) -> (r: Option<usize>)
    ensures
        match r {
            Some(i) => first_readme(file_names@, 0) == Some(i as int) && i < file_names.len(),
            None => first_readme(file_names@, 0) is None,
        },
        r matches Some(i) ==> is_part_of(README@, file_names[i as int]@),
        r is None ==> forall|j: int|
            0 <= j < file_names.len() ==> !is_part_of(README@, (#[trigger] file_names[j])@),
{
    let mut i: usize = 0;
    while i < file_names.len()
        invariant
            i <= file_names.len(),
            first_readme(file_names@, 0) == first_readme(file_names@, i as int),
            forall|j: int| 0 <= j < i ==> !is_part_of(README@, (#[trigger] file_names[j])@),
        decreases file_names.len() - i,
    {
        if contains(file_names[i].as_str(), README) {
            return Some(i);
        }
        i += 1;
    }
    None
}

/// The lines counted in one file.
#[derive(Clone, Copy, Debug, PartialEq, Eq, Structural)]
pub struct Report {
    pub code: usize,
    pub comments: usize,
}

/// The files of one language, each with its counts.
#[derive(Debug)]
pub struct LanguageReports {
    pub name: String,
    pub reports: Vec<Report>,
}

/// The lines of code in `report`, summed.
pub open spec fn total_loc(report: Seq<Report>) -> nat
    decreases report.len(),
{
    if report.len() == 0 {
        0
    } else {
        total_loc(report.drop_last()) + report.last().code as nat
    }
}

/// The comment lines in `report`, summed.
pub open spec fn total_comments(report: Seq<Report>) -> nat
    decreases report.len(),
{
    if report.len() == 0 {
        0
    } else {
        total_comments(report.drop_last()) + report.last().comments as nat
    }
}

/// A sum grows with every file.
proof fn lemma_totals_grow(report: Seq<Report>, i: int)
    requires
        0 <= i <= report.len(),
    ensures
        total_loc(report.take(i)) <= total_loc(report),
        total_comments(report.take(i)) <= total_comments(report),
    decreases report.len() - i,
{
    if i < report.len() {
        lemma_totals_grow(report, i + 1);
        assert(report.take(i + 1).drop_last() =~= report.take(i));
    } else {
        assert(report.take(i) =~= report);
    }
}

/// The lines of code in `report`, summed.
pub fn get_loc(report: &Vec<Report>) -> (r: usize)
    requires
        total_loc(report@) <= usize::MAX,
    ensures
        r == total_loc(report@),
{
    let mut sum: usize = 0;
    let mut i: usize = 0;
    while i < report.len()
        invariant
            i <= report.len(),
            sum == total_loc(report@.take(i as int)),
            total_loc(report@) <= usize::MAX,
        decreases report.len() - i,
    {
        proof {
            lemma_totals_grow(report@, i + 1);
            assert(report@.take(i + 1).drop_last() =~= report@.take(i as int));
        }
        sum = sum + report[i].code;
        i += 1;
    }
    assert(report@.take(report.len() as int) =~= report@);
    sum
}

/// The comment lines in `report`, summed.
pub fn get_comments(report: &Vec<Report>) -> (r: usize)
    requires
        total_comments(report@) <= usize::MAX,
    ensures
        r == total_comments(report@),
{
    let mut sum: usize = 0;
    let mut i: usize = 0;
    while i < report.len()
        invariant
            i <= report.len(),
            sum == total_comments(report@.take(i as int)),
            total_comments(report@) <= usize::MAX,
        decreases report.len() - i,
    {
        proof {
            lemma_totals_grow(report@, i + 1);
            assert(report@.take(i + 1).drop_last() =~= report@.take(i as int));
        }
        sum = sum + report[i].comments;
        i += 1;
    }
    assert(report@.take(report.len() as int) =~= report@);
    sum
}

/// The sums of every language fit the machine's numbers.
pub open spec fn countable(lang_children: Seq<LanguageReports>) -> bool {
    forall|i: int|
        0 <= i < lang_children.len() ==> total_loc((#[trigger] lang_children[i]).reports@)
            <= usize::MAX && total_comments(lang_children[i].reports@) <= usize::MAX
}

/// Whether the lines of code and the comment lines in `report` each sum up
/// to a number that fits the machine's numbers.
pub fn is_summable(report: &Vec<Report>) -> (r: bool)
    ensures
        r == (total_loc(report@) <= usize::MAX && total_comments(report@) <= usize::MAX),
{
    let mut loc: usize = 0;
    let mut comments: usize = 0;
    let mut i: usize = 0;
    while i < report.len()
        invariant
            i <= report.len(),
            loc == total_loc(report@.take(i as int)),
            comments == total_comments(report@.take(i as int)),
        decreases report.len() - i,
    {
        proof {
            lemma_totals_grow(report@, i + 1);
            assert(report@.take(i + 1).drop_last() =~= report@.take(i as int));
        }
        if report[i].code > usize::MAX - loc || report[i].comments > usize::MAX - comments {
            return false;
        }
        loc = loc + report[i].code;
        comments = comments + report[i].comments;
        i += 1;
    }
    assert(report@.take(report.len() as int) =~= report@);
    true
}

/// Whether the sums of every language fit the machine's numbers.
pub fn is_countable(lang_children: &Vec<LanguageReports>) -> (r: bool)
    ensures
        r == countable(lang_children@),
{
    let mut i: usize = 0;
    while i < lang_children.len()
        invariant
            i <= lang_children.len(),
            forall|j: int|
                0 <= j < i ==> total_loc((#[trigger] lang_children[j]).reports@) <= usize::MAX
                    && total_comments(lang_children[j].reports@) <= usize::MAX,
        decreases lang_children.len() - i,
    {
        if !is_summable(&lang_children[i].reports) {
            return false;
        }
        i += 1;
    }
    true
}

/// `stats` holds the name and the sums of `lang`.
pub open spec fn sums_up(stats: LangStats, lang: LanguageReports) -> bool {
    &&& stats.wf()
    &&& stats.spec_name() == lang.name@
    &&& stats.spec_loc() == non_zero(total_loc(lang.reports@) as usize)
    &&& stats.spec_comments() == non_zero(total_comments(lang.reports@) as usize)
}

/// The statistics of each language, in the order of `lang_children`: its
/// name, and its lines of code and of comments summed over its files.
pub fn collect_into_stats(lang_children: &Vec<LanguageReports>) -> (r: Vec<LangStats>)
    requires
        countable(lang_children@),
    ensures
        r.len() == lang_children.len(),
        forall|i: int| 0 <= i < r.len() ==> sums_up(#[trigger] r[i], lang_children[i]),
{
    let mut stats: Vec<LangStats> = Vec::new();
    let mut i: usize = 0;
    while i < lang_children.len()
        invariant
            i <= lang_children.len(),
            countable(lang_children@),
            stats.len() == i,
            forall|j: int| 0 <= j < i ==> sums_up(#[trigger] stats[j], lang_children[j]),
        decreases lang_children.len() - i,
    {
        let lang = &lang_children[i];
        let loc = get_loc(&lang.reports);
        let comments = get_comments(&lang.reports);
        stats.push(LangStats::new(lang.name.clone(), loc, comments));
        i += 1;
    }
    stats
}

/// The counts of one language as a line of text: what there is of lines of
/// code and of comments, and nothing where there is neither.
pub open spec fn counts_text(loc: Option<usize>, comments: Option<usize>) -> Seq<char> {
    match (loc, comments) {
        (Some(loc), Some(comments)) => decimal(loc as nat) + " loc, "@ + decimal(comments as nat)
            + " comments."@,
        (Some(loc), None) => decimal(loc as nat) + " loc."@,
        (None, Some(comments)) => decimal(comments as nat) + " comments."@,
        (None, None) => Seq::empty(),
    }
}

impl LangStats {
    /// The statistics as text: the name, and the counts on a line of their
    /// own.
    pub open spec fn text(&self) -> Seq<char> {
        self.spec_name() + "\n"@ + counts_text(self.spec_loc(), self.spec_comments())
    }

    /// The statistics as text.
    pub fn to_string(&self) -> (r: String)
        ensures
            r@ == self.text(),
    {
        let mut res = self.name.clone();
        res.append("\n");
        match (self.loc, self.comments) {
            (Some(loc), Some(comments)) => {
                res.append(u64_to_string(loc as u64).as_str());
                res.append(" loc, ");
                res.append(u64_to_string(comments as u64).as_str());
                res.append(" comments.");
            },
            (Some(loc), None) => {
                res.append(u64_to_string(loc as u64).as_str());
                res.append(" loc.");
            },
            (None, Some(comments)) => {
                res.append(u64_to_string(comments as u64).as_str());
                res.append(" comments.");
            },
            _ => {},
        }
        assert(res@ =~= self.text());
        res
    }
}

} // verus!
