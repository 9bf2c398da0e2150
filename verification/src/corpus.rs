//! Assembling the evaluation corpus from pages of dataset rows.
use vstd::prelude::*;
use vstd::string::StringExecFns;

verus! {

/// Rows fetched per page.
pub const PAGE: usize = 100;

/// A row as it enters the corpus: its text, ended by a newline.
pub open spec fn row_line(text: Seq<char>) -> Seq<char> {
    if text.len() > 0 && text.last() == '\n' {
        text
    } else {
        text.push('\n')
    }
}

/// The corpus text that a run of rows adds.
pub open spec fn rows_text(rows: Seq<Seq<char>>) -> Seq<char>
    decreases rows.len(),
{
    if rows.len() == 0 {
        Seq::empty()
    } else {
        rows_text(rows.drop_last()) + row_line(rows.last())
    }
}

/// The last character of a string, if any.
pub fn last_char(s: &str) -> (r: Option<char>)
    ensures
        r == if s@.len() > 0 {
            Some(s@.last())
        } else {
            None::<char>
        },
{
    let mut last: Option<char> = None;
    for c in it: s.chars()
        invariant
            it.seq() == s@,
            last == if it.index() > 0 {
                Some(s@[it.index() - 1])
            } else {
                None::<char>
            },
    {
        last = Some(c);
    }
    last
}

/// Appends the rows' texts to the corpus, each ended by a newline.
pub fn append_rows(text: &mut String, rows: &[String])
    ensures
        final(text)@ == old(text)@ + rows_text(rows@.map_values(|r: String| r@)),
{
    let ghost all = rows@.map_values(|r: String| r@);
    let mut i: usize = 0;
    while i < rows.len()
        invariant
            i <= rows@.len(),
            all == rows@.map_values(|r: String| r@),
            text@ == old(text)@ + rows_text(all.subrange(0, i as int)),
        decreases rows@.len() - i,
    {
        let row = rows[i].as_str();
        text.append(row);
        let ends_with_newline = match last_char(row) {
            Some(c) => c == '\n',
            None => false,
        };
        if !ends_with_newline {
            text.append("\n");
        }
        proof {
            reveal_strlit("\n");
            assert(all.subrange(0, i + 1).drop_last() =~= all.subrange(0, i as int));
            assert(all.subrange(0, i + 1).last() == row@);
            assert(text@ =~= old(text)@ + rows_text(all.subrange(0, i + 1)));
        }
        i = i + 1;
    }
    proof {
        assert(all.subrange(0, rows@.len() as int) =~= all);
    }
}

/// Where the download stands after a page: the offset it has reached, and
/// whether it fetches another page from there.
#[derive(Clone, Copy, Debug, PartialEq, Eq)]
pub struct NextPage {
    pub offset: usize,
    pub fetch: bool,
}

/// The download's decision after a page of `rows` rows was fetched at
/// `offset`, out of `total` rows. An empty page ends the download, except the
/// first, which only moves the offset.
pub fn after_page(offset: usize, rows: usize, total: usize, first: bool) -> (r: NextPage)
    requires
        offset + rows <= usize::MAX,
    ensures
        !first && rows == 0 ==> r == (NextPage { offset, fetch: false }),
        first || rows > 0 ==> r == (NextPage { offset: (offset + rows) as usize, fetch: offset + rows < total }),
{
    if !first && rows == 0 {
        NextPage { offset, fetch: false }
    } else {
        let next = offset + rows;
        NextPage { offset: next, fetch: next < total }
    }
}

} // verus!
