use vstd::prelude::*;
use crate::compare::{rows_agree, DataCompare};
use crate::error::JudgeError;
use crate::extract::{cells_of, content_start_index, fetch_contents, occurs_at, sectd};
use crate::text::{chars_of, split_tokens, tokens, views};

verus! {

/// Header cell that opens the data summary.
pub const DATA_SUMMARY: &'static str = "\\u25968;\\u25454;\\u38598;\\u27719;\\u24635;";

/// Header cell that opens the variable summary.
pub const VARIABLE_SUMMARY: &'static str = "\\u21464;\\u37327;\\u27719;\\u24635;";

/// Header cell that opens the row summary.
pub const ROW_SUMMARY: &'static str = "\\u35266;\\u27979;\\u27719;\\u24635;";

/// Start of a cell that counts variables with differing attributes.
pub const DIFFERENT_ATTRIBUTE: &'static str =
    "\\u20855;\\u26377;\\u19981;\\u21516;\\u23646;\\u24615;\\u30340;\\u21464;\\u37327;\\u25968;";

/// Start of a cell that counts observations with unequal compared values.
pub const UNEQUAL_ROW_NUMBER: &'static str = "\\u37096;\\u20998;\\u27604;\\u36739;\\u21464;\\u37327;\\u19981;\\u31561;\\u30340;\\u35266;\\u27979;\\u25968;";

/// The count token that means that no observation differs.
pub const ZERO: &'static str = "0\\u12290;";

/// The part of the report that the judge is reading.
#[derive(Debug, Clone, Copy, PartialEq, Eq, Structural)]
pub enum Section {
    /// Before the data summary.
    Preamble,
    /// Pairs of dataset rows are compared.
    DataSummary,
    /// Cells are checked for differing attributes.
    VariableSummary,
    /// The count of unequal observations is read.
    RowSummary,
}

/// `p` is a prefix of `s`.
pub open spec fn starts_with(s: Seq<char>, p: Seq<char>) -> bool {
    p.len() <= s.len() && s.subrange(0, p.len() as int) == p
}

/// The judgement of the cells from position `i` on, in section `sec`.
pub open spec fn walk(cells: Seq<Seq<char>>, sec: Section, i: int) -> Result<bool, JudgeError>
    decreases cells.len() - i,
{
    if i < 0 || i >= cells.len() {
        Ok(true)
    } else {
        match sec {
            Section::Preamble => {
                if cells[i] == DATA_SUMMARY@ {
                    walk(cells, Section::DataSummary, i + 1)
                } else {
                    walk(cells, Section::Preamble, i + 1)
                }
            },
            Section::DataSummary => {
                if cells[i] == VARIABLE_SUMMARY@ {
                    walk(cells, Section::VariableSummary, i + 1)
                } else if i + 2 >= cells.len() {
                    Err(JudgeError::MalformedReport)
                } else if !rows_agree(tokens(cells[i + 1]), tokens(cells[i + 2])) {
                    Ok(false)
                } else {
                    walk(cells, Section::DataSummary, i + 3)
                }
            },
            Section::VariableSummary => {
                if cells[i] == ROW_SUMMARY@ {
                    walk(cells, Section::RowSummary, i + 1)
                } else if starts_with(cells[i], DIFFERENT_ATTRIBUTE@) {
                    Ok(false)
                } else {
                    walk(cells, Section::VariableSummary, i + 1)
                }
            },
            Section::RowSummary => {
                if starts_with(cells[i], UNEQUAL_ROW_NUMBER@) {
                    if tokens(cells[i]).len() < 2 {
                        Err(JudgeError::MalformedReport)
                    } else {
                        Ok(tokens(cells[i])[1] == ZERO@)
                    }
                } else {
                    walk(cells, Section::RowSummary, i + 1)
                }
            },
        }
    }
}

/// The judgement of a whole cell sequence.
pub open spec fn judgement(cells: Seq<Seq<char>>) -> Result<bool, JudgeError> {
    walk(cells, Section::Preamble, 0)
}

/// `i` is where the first body-start marker of `data` begins.
pub open spec fn first_marker(data: Seq<u8>, i: int) -> bool {
    occurs_at(data, sectd(), i) && forall|j: int| 0 <= j < i ==> !occurs_at(data, sectd(), j)
}

/// Within the row summary, the judgement is read off the first cell that
/// starts with the unequal-observations marker: it is true exactly when that
/// cell's second token is the zero token.
pub proof fn lemma_row_summary_count(cells: Seq<Seq<char>>, i: int, j: int)
    requires
        0 <= i <= j < cells.len(),
        starts_with(cells[j], UNEQUAL_ROW_NUMBER@),
        forall|k: int| i <= k < j ==> !starts_with(cells[k], UNEQUAL_ROW_NUMBER@),
        tokens(cells[j]).len() >= 2,
    ensures
        walk(cells, Section::RowSummary, i) == Ok::<bool, JudgeError>(tokens(cells[j])[1] == ZERO@),
    decreases j - i,
{
    if i < j {
        lemma_row_summary_count(cells, i + 1, j);
    }
}

/// Within the variable summary, a cell that starts with the
/// differing-attributes marker makes the judgement false, whatever follows it.
pub proof fn lemma_different_attribute_fails(cells: Seq<Seq<char>>, i: int, j: int)
    requires
        0 <= i <= j < cells.len(),
        starts_with(cells[j], DIFFERENT_ATTRIBUTE@),
        forall|k: int| i <= k < j ==> cells[k] != ROW_SUMMARY@,
    ensures
        walk(cells, Section::VariableSummary, i) == Ok::<bool, JudgeError>(false),
    decreases j - i,
{
    if i < j {
        if !starts_with(cells[i], DIFFERENT_ATTRIBUTE@) {
            lemma_different_attribute_fails(cells, i + 1, j);
        }
    } else {
        reveal_strlit("\\u35266;\\u27979;\\u27719;\\u24635;");
        reveal_strlit(
            "\\u20855;\\u26377;\\u19981;\\u21516;\\u23646;\\u24615;\\u30340;\\u21464;\\u37327;\\u25968;",
        );
        assert(cells[j] != ROW_SUMMARY@);
    }
}

/// Whether `a` and `b` hold the same characters.
fn same_chars(a: &Vec<char>, b: &Vec<char>) -> (r: bool)
    ensures
        r == (a@ == b@),
{
    if a.len() != b.len() {
        return false;
    }
    let mut k: usize = 0;
    while k < a.len()
        invariant
            a@.len() == b@.len(),
            k <= a@.len(),
            forall|j: int| 0 <= j < k ==> a@[j] == b@[j],
        decreases a.len() - k,
    {
        if a[k] != b[k] {
            return false;
        }
        k = k + 1;
    }
    assert(a@ =~= b@);
    true
}

/// Whether `p` is a prefix of `s`.
fn starts_with_chars(s: &Vec<char>, p: &Vec<char>) -> (r: bool)
    ensures
        r == starts_with(s@, p@),
{
    if p.len() > s.len() {
        return false;
    }
    let mut k: usize = 0;
    while k < p.len()
        invariant
            p@.len() <= s@.len(),
            k <= p@.len(),
            forall|j: int| 0 <= j < k ==> s@[j] == p@[j],
        decreases p.len() - k,
    {
        if s[k] != p[k] {
            assert(s@.subrange(0, p@.len() as int)[k as int] != p@[k as int]);
            return false;
        }
        k = k + 1;
    }
    assert(s@.subrange(0, p@.len() as int) =~= p@);
    true
}

/// The cells of a QC report, in document order.
pub struct QcJudge {
    contents: Vec<String>,
}

impl QcJudge {
    /// The cells held.
    pub closed spec fn cells(&self) -> Seq<Seq<char>> {
        views(self.contents@)
    }

    /// A judge over the given cells.
    pub fn from_contents(contents: Vec<String>) -> (r: QcJudge)
        ensures
            r.cells() == views(contents@),
    {
        QcJudge { contents }
    }

    /// A judge over the cells of a whole document: those of its body, which
    /// starts at the first `\sectd` marker.
    pub fn from_bytes(data: &[u8]) -> (r: Result<QcJudge, JudgeError>)
        ensures
            match r {
                Ok(j) => exists|i: int|
                    first_marker(data@, i) && cells_of(data@.skip(i)) == Ok::<
                        Seq<Seq<char>>,
                        JudgeError,
                    >(j.cells()),
                Err(e) => (e == JudgeError::MarkerNotFound && forall|i: int|
                    !occurs_at(data@, sectd(), i)) || exists|i: int|
                    first_marker(data@, i) && cells_of(data@.skip(i)) == Err::<
                        Seq<Seq<char>>,
                        JudgeError,
                    >(e),
            },
    {
        let start = match content_start_index(data) {
            Ok(s) => s,
            Err(e) => {
                return Err(e);
            },
        };
        let body = vstd::slice::slice_subrange(data, start, data.len());
        assert(body@ =~= data@.skip(start as int));
        assert(first_marker(data@, start as int));
        match fetch_contents(body) {
            Ok(contents) => Ok(QcJudge { contents }),
            Err(e) => Err(e),
        }
    }

    /// Whether the report shows full agreement: every compared pair of dataset
    /// rows agrees, no variable differs in its attributes, and the count of
    /// unequal observations, where given, is zero.
    pub fn judge(&self) -> (r: Result<bool, JudgeError>)
        ensures
            r == judgement(self.cells()),
    {
        let data_summary = chars_of(DATA_SUMMARY);
        let variable_summary = chars_of(VARIABLE_SUMMARY);
        let row_summary = chars_of(ROW_SUMMARY);
        let different_attribute = chars_of(DIFFERENT_ATTRIBUTE);
        let unequal_row_number = chars_of(UNEQUAL_ROW_NUMBER);
        let zero = chars_of(ZERO);
        let n = self.contents.len();
        let mut section = Section::Preamble;
        let mut data_compare = DataCompare::new();
        let mut i: usize = 0;
        while i < n
            invariant
                n == self.cells().len(),
                i <= n,
                data_summary@ == DATA_SUMMARY@,
                variable_summary@ == VARIABLE_SUMMARY@,
                row_summary@ == ROW_SUMMARY@,
                different_attribute@ == DIFFERENT_ATTRIBUTE@,
                unequal_row_number@ == UNEQUAL_ROW_NUMBER@,
                zero@ == ZERO@,
                walk(self.cells(), section, i as int) == judgement(self.cells()),
            decreases n - i,
        {
            let cell = chars_of(self.contents[i].as_str());
            assert(cell@ == self.cells()[i as int]);
            match section {
                Section::Preamble => {
                    if same_chars(&cell, &data_summary) {
                        section = Section::DataSummary;
                    }
                    i = i + 1;
                },
                Section::DataSummary => {
                    if same_chars(&cell, &variable_summary) {
                        section = Section::VariableSummary;
                        i = i + 1;
                    } else {
                        if n - i <= 2 {
                            return Err(JudgeError::MalformedReport);
                        }
                        data_compare.set_base(self.contents[i + 1].as_str());
                        data_compare.set_compare(self.contents[i + 2].as_str());
                        assert(self.cells()[i + 1] == self.contents@[i + 1]@);
                        assert(self.cells()[i + 2] == self.contents@[i + 2]@);
                        if !data_compare.equal() {
                            return Ok(false);
                        }
                        i = i + 3;
                    }
                },
                Section::VariableSummary => {
                    if same_chars(&cell, &row_summary) {
                        section = Section::RowSummary;
                    } else if starts_with_chars(&cell, &different_attribute) {
                        return Ok(false);
                    }
                    i = i + 1;
                },
                Section::RowSummary => {
                    if starts_with_chars(&cell, &unequal_row_number) {
                        let parts = split_tokens(self.contents[i].as_str());
                        if parts.len() < 2 {
                            return Err(JudgeError::MalformedReport);
                        }
                        let count = chars_of(parts[1].as_str());
                        assert(count@ == views(parts@)[1]);
                        return Ok(same_chars(&count, &zero));
                    }
                    i = i + 1;
                },
            }
        }
        Ok(true)
    }
}

} // verus!
