use vstd::prelude::*;
use crate::text::{split_tokens, tokens, views};

verus! {

/// Column holding the number of variables.
pub const VARIABLES_NUMBER_COLUMN: usize = 3;

/// Column holding the number of rows.
pub const ROWS_NUMBER_COLUMN: usize = 4;

/// Column holding the label summary.
pub const LABELS_NUMBER_COLUMN: usize = 5;

/// Two rows agree on column `k`: both have the same token there, or neither
/// has a token there.
pub open spec fn column_agrees(b: Seq<Seq<char>>, c: Seq<Seq<char>>, k: int) -> bool {
    &&& (k < b.len()) == (k < c.len())
    &&& k < b.len() ==> b[k] == c[k]
}

/// Two rows agree on the variable-count, row-count and label columns.
pub open spec fn rows_agree(b: Seq<Seq<char>>, c: Seq<Seq<char>>) -> bool {
    &&& column_agrees(b, c, VARIABLES_NUMBER_COLUMN as int)
    &&& column_agrees(b, c, ROWS_NUMBER_COLUMN as int)
    &&& column_agrees(b, c, LABELS_NUMBER_COLUMN as int)
}

/// The tokens of a base line and of a compare line, compared column by column.
pub struct DataCompare {
    base: Vec<String>,
    compare: Vec<String>,
}

impl DataCompare {
    /// The tokens of the base line.
    pub closed spec fn base_tokens(&self) -> Seq<Seq<char>> {
        views(self.base@)
    }

    /// The tokens of the compare line.
    pub closed spec fn compare_tokens(&self) -> Seq<Seq<char>> {
        views(self.compare@)
    }

    /// A comparison with no tokens on either side.
    pub fn new() -> (r: DataCompare)
        ensures
            r.base_tokens() == Seq::<Seq<char>>::empty(),
            r.compare_tokens() == Seq::<Seq<char>>::empty(),
    {
        let r = DataCompare { base: Vec::new(), compare: Vec::new() };
        assert(r.base_tokens() =~= Seq::<Seq<char>>::empty());
        assert(r.compare_tokens() =~= Seq::<Seq<char>>::empty());
        r
    }

    /// Replaces the base tokens by those of `content`.
    pub fn set_base(&mut self, content: &str)
        ensures
            final(self).base_tokens() == tokens(content@),
            final(self).compare_tokens() == old(self).compare_tokens(),
    {
        self.base = split_tokens(content);
    }

    /// Replaces the compare tokens by those of `content`.
    pub fn set_compare(&mut self, content: &str)
        ensures
            final(self).compare_tokens() == tokens(content@),
            final(self).base_tokens() == old(self).base_tokens(),
    {
        self.compare = split_tokens(content);
    }

    /// Whether the two lines agree on the variable-count, row-count and label
    /// columns, checked in that order.
    pub fn equal(&self) -> (r: bool)
        ensures
            r == rows_agree(self.base_tokens(), self.compare_tokens()),
    {
        if !self.compare(VARIABLES_NUMBER_COLUMN) {
            return false;
        }
        if !self.compare(ROWS_NUMBER_COLUMN) {
            return false;
        }
        self.compare(LABELS_NUMBER_COLUMN)
    }

    /// Whether the two lines agree on column `column_number`.
    fn compare(&self, column_number: usize) -> (r: bool)
        ensures
            r == column_agrees(self.base_tokens(), self.compare_tokens(), column_number as int),
    {
        let nb = self.base.len();
        let nc = self.compare.len();
        if column_number < nb && column_number < nc {
            self.base[column_number] == self.compare[column_number]
        } else {
            !(column_number < nb) && !(column_number < nc)
        }
    }
}

/// A line compared with an identical copy of itself is equal.
pub proof fn lemma_equal_reflexive(line: Seq<char>)
    ensures
        rows_agree(tokens(line), tokens(line)),
{
}

/// Where both lines lack a token in a column they agree on it; where only one
/// of them has a token there they disagree on it, and so are not equal.
pub proof fn lemma_column_absence(base: Seq<char>, cmp: Seq<char>, k: int)
    requires
        0 <= k,
    ensures
        tokens(base).len() <= k && tokens(cmp).len() <= k ==> column_agrees(
            tokens(base),
            tokens(cmp),
            k,
        ),
        tokens(base).len() > k && tokens(cmp).len() <= k ==> !column_agrees(
            tokens(base),
            tokens(cmp),
            k,
        ),
        tokens(base).len() > VARIABLES_NUMBER_COLUMN && tokens(cmp).len()
            <= VARIABLES_NUMBER_COLUMN ==> !rows_agree(tokens(base), tokens(cmp)),
{
}

} // verus!
