//! Replacing the marked comparison section of a document.
use vstd::prelude::*;

verus! {

/// `needle` occurs in `hay` at position `i`.
pub open spec fn occurs_at(hay: Seq<char>, needle: Seq<char>, i: int) -> bool {
    0 <= i && i + needle.len() <= hay.len() && hay.subrange(i, i + needle.len()) == needle
}

/// Which marker of the section is missing.
#[derive(Clone, Copy, Debug, PartialEq, Eq)]
pub enum MissingMarker {
    Start,
    End,
}

/// Position of the first occurrence of `needle` in `hay`.
pub fn find(hay: &[char], needle: &[char]) -> (r: Option<usize>)
    ensures
        match r {
            Some(i) => occurs_at(hay@, needle@, i as int) && forall|j: int|
                0 <= j < i ==> !occurs_at(hay@, needle@, j),
            None => forall|j: int| !occurs_at(hay@, needle@, j),
        },
{
    if needle.len() > hay.len() {
        return None;
    }
    let hlen = hay.len();
    let last = hlen - needle.len();
    let mut i: usize = 0;
    while i <= last
        invariant
            hlen == hay@.len(),
            needle@.len() <= hay@.len(),
            last == hay@.len() - needle@.len(),
            i <= last + 1,
            forall|j: int| 0 <= j < i ==> !occurs_at(hay@, needle@, j),
        decreases last + 1 - i,
    {
        let mut k: usize = 0;
        let mut matched = true;
        while k < needle.len()
            invariant
                hlen == hay@.len(),
                i <= last,
                last == hay@.len() - needle@.len(),
                k <= needle@.len(),
                matched == forall|t: int| 0 <= t < k ==> hay@[i + t] == needle@[t],
            decreases needle@.len() - k,
        {
            if hay[i + k] != needle[k] {
                matched = false;
            }
            k = k + 1;
        }
        if matched {
            proof {
                assert(hay@.subrange(i as int, i + needle@.len()) =~= needle@);
            }
            return Some(i);
        }
        proof {
            if occurs_at(hay@, needle@, i as int) {
                let t = choose|t: int| 0 <= t < needle@.len() && hay@[i + t] != needle@[t];
                assert(hay@.subrange(i as int, i + needle@.len())[t] == hay@[i + t]);
            }
        }
        i = i + 1;
    }
    None
}

/// The document with everything from the first start marker through the end
/// of the first end marker replaced by `table`.
pub open spec fn spliced(doc: Seq<char>, start: int, end: int, end_len: int, table: Seq<char>) -> Seq<char> {
    doc.subrange(0, start) + table + doc.subrange(end + end_len, doc.len() as int)
}

/// Replaces the section between the first `start` marker and the end of the
/// first `end` marker with `table`; a missing marker is reported, the start
/// marker first.
pub fn replace_section(doc: &[char], start: &[char], end: &[char], table: &[char]) -> (r: Result<
    Vec<char>,
    MissingMarker,
>)
    ensures
        match r {
            Ok(out) => exists|s: int, e: int|
                #![trigger occurs_at(doc@, start@, s), occurs_at(doc@, end@, e)]
                occurs_at(doc@, start@, s) && (forall|j: int| 0 <= j < s ==> !occurs_at(doc@, start@, j))
                    && occurs_at(doc@, end@, e) && (forall|j: int|
                    0 <= j < e ==> !occurs_at(doc@, end@, j)) && out@ == spliced(
                    doc@,
                    s,
                    e,
                    end@.len() as int,
                    table@,
                ),
            Err(MissingMarker::Start) => forall|j: int| !occurs_at(doc@, start@, j),
            Err(MissingMarker::End) => (exists|j: int| occurs_at(doc@, start@, j)) && forall|j: int|
                !occurs_at(doc@, end@, j),
        },
{
    let s = match find(doc, start) {
        Some(s) => s,
        None => {
            return Err(MissingMarker::Start);
        },
    };
    let e = match find(doc, end) {
        Some(e) => e,
        None => {
            return Err(MissingMarker::End);
        },
    };
    let dlen = doc.len();
    proof {
        assert(occurs_at(doc@, end@, e as int));
    }
    let after = e + end.len();
    let mut out: Vec<char> = Vec::new();
    let mut i: usize = 0;
    while i < s
        invariant
            s <= doc@.len(),
            i <= s,
            out@ == doc@.subrange(0, i as int),
        decreases s - i,
    {
        out.push(doc[i]);
        i = i + 1;
        proof {
            assert(out@ =~= doc@.subrange(0, i as int));
        }
    }
    let mut k: usize = 0;
    while k < table.len()
        invariant
            s <= doc@.len(),
            k <= table@.len(),
            out@ == doc@.subrange(0, s as int) + table@.subrange(0, k as int),
        decreases table@.len() - k,
    {
        out.push(table[k]);
        k = k + 1;
        proof {
            assert(out@ =~= doc@.subrange(0, s as int) + table@.subrange(0, k as int));
        }
    }
    let mut j: usize = after;
    while j < doc.len()
        invariant
            s <= doc@.len(),
            after <= doc@.len(),
            after <= j <= doc@.len(),
            out@ == doc@.subrange(0, s as int) + table@ + doc@.subrange(after as int, j as int),
        decreases doc@.len() - j,
    {
        out.push(doc[j]);
        j = j + 1;
        proof {
            assert(out@ =~= doc@.subrange(0, s as int) + table@ + doc@.subrange(
                after as int,
                j as int,
            ));
        }
    }
    proof {
        assert(table@.subrange(0, table@.len() as int) =~= table@);
        assert(out@ == spliced(doc@, s as int, e as int, end@.len() as int, table@));
        assert(occurs_at(doc@, start@, s as int));
    }
    Ok(out)
}

} // verus!
