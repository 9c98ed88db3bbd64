//! The snapshot's tables as delimited text: one record per line, fields
//! separated by commas, a header line naming the columns. A field may be
//! quoted with `"`: commas and line breaks inside quotes belong to the
//! field, and `""` inside a quoted field stands for one `"`.
use vstd::prelude::*;
use vstd::utf8::{decode_utf8, valid_utf8};
use crate::account::{AccountId, AccountRow};
use crate::index::{
    index_of, publishers_spec, MemberRow, OwnerKind, OwnerRow, PackageRow, RegistryIndex, Tables,
};

verus! {

/// The line separator.
pub const NEWLINE: u8 = 10;

/// The field separator.
pub const COMMA: u8 = 44;

/// The quote mark.
pub const QUOTE: u8 = 34;

/// How many quote marks `s` holds.
pub open spec fn quote_count(s: Seq<u8>) -> nat
    decreases s.len(),
{
    if s.len() == 0 {
        0
    } else {
        quote_count(s.drop_last()) + if s.last() == QUOTE {
            1nat
        } else {
            0nat
        }
    }
}

/// The pieces of `s` between the separators `d` that stand outside quotes
/// (after an even number of quote marks); a text without any is one piece,
/// and an empty text is one empty piece.
pub open spec fn fields_of(s: Seq<u8>, d: u8) -> Seq<Seq<u8>>
    decreases s.len(),
{
    if s.len() == 0 {
        seq![Seq::<u8>::empty()]
    } else {
        let f = fields_of(s.drop_last(), d);
        if s.last() == d && quote_count(s.drop_last()) % 2 == 0 {
            f.push(Seq::<u8>::empty())
        } else {
            f.update(f.len() - 1, f.last().push(s.last()))
        }
    }
}

proof fn lemma_fields_nonempty(s: Seq<u8>, d: u8)
    ensures
        fields_of(s, d).len() >= 1,
    decreases s.len(),
{
    if s.len() > 0 {
        lemma_fields_nonempty(s.drop_last(), d);
    }
}

/// Where the pieces of `b[lo..hi]` between separators `d` lie in `b`.
pub fn split_ranges(b: &[u8], lo: usize, hi: usize, d: u8) -> (r: Vec<(usize, usize)>)
    requires
        lo <= hi <= b@.len(),
    ensures
        r@.len() == fields_of(b@.subrange(lo as int, hi as int), d).len(),
        forall|i: int|
            0 <= i < r@.len() ==> lo <= (#[trigger] r@[i]).0 <= r@[i].1 <= hi && b@.subrange(
                r@[i].0 as int,
                r@[i].1 as int,
            ) == fields_of(b@.subrange(lo as int, hi as int), d)[i],
{
    let mut r: Vec<(usize, usize)> = Vec::new();
    let mut start: usize = lo;
    let mut k: usize = lo;
    let mut quoted = false;
    assert(b@.subrange(lo as int, lo as int) =~= Seq::<u8>::empty());
    assert(b@.subrange(start as int, k as int) =~= Seq::<u8>::empty());
    while k < hi
        invariant
            lo <= start <= k <= hi <= b@.len(),
            quoted == (quote_count(b@.subrange(lo as int, k as int)) % 2 == 1),
            r@.len() + 1 == fields_of(b@.subrange(lo as int, k as int), d).len(),
            forall|i: int|
                0 <= i < r@.len() ==> lo <= (#[trigger] r@[i]).0 <= r@[i].1 <= k && b@.subrange(
                    r@[i].0 as int,
                    r@[i].1 as int,
                ) == fields_of(b@.subrange(lo as int, k as int), d)[i],
            b@.subrange(start as int, k as int) == fields_of(
                b@.subrange(lo as int, k as int),
                d,
            ).last(),
        decreases hi - k,
    {
        let ghost pre = b@.subrange(lo as int, k as int);
        let ghost next = b@.subrange(lo as int, k + 1);
        assert(next.drop_last() =~= pre);
        assert(next.last() == b@[k as int]);
        proof {
            lemma_fields_nonempty(pre, d);
        }
        if b[k] == d && !quoted {
            r.push((start, k));
            start = k + 1;
            assert(b@.subrange(start as int, k + 1) =~= Seq::<u8>::empty());
        } else {
            assert(b@.subrange(start as int, k + 1) =~= b@.subrange(start as int, k as int).push(b@[k as int]));
        }
        if b[k] == QUOTE {
            quoted = !quoted;
        }
        k = k + 1;
    }
    r.push((start, hi));
    r
}

/// Is `c` an ASCII decimal digit?
pub open spec fn is_digit(c: u8) -> bool {
    48 <= c <= 57
}

/// The number that a string of decimal digits writes.
pub open spec fn digits_value(s: Seq<u8>) -> int
    decreases s.len(),
{
    if s.len() == 0 {
        0
    } else {
        digits_value(s.drop_last()) * 10 + (s.last() - 48)
    }
}

/// The `u64` that `s` writes in decimal: one digit at least, nothing but
/// digits, and not beyond the largest `u64`.
pub open spec fn decimal_of(s: Seq<u8>) -> Option<u64> {
    if s.len() > 0 && (forall|i: int| 0 <= i < s.len() ==> is_digit(#[trigger] s[i])) && digits_value(
        s,
    ) <= u64::MAX {
        Some(digits_value(s) as u64)
    } else {
        None
    }
}

proof fn lemma_digits_grow(s: Seq<u8>, j: int)
    requires
        0 <= j <= s.len(),
        forall|i: int| 0 <= i < s.len() ==> is_digit(#[trigger] s[i]),
    ensures
        0 <= digits_value(s.take(j)) <= digits_value(s),
    decreases s.len(),
{
    if s.len() > 0 {
        if j == s.len() {
            assert(s.take(j) =~= s);
            lemma_digits_grow(s.drop_last(), 0);
            assert(s.drop_last().take(0) =~= s.take(0));
        } else {
            lemma_digits_grow(s.drop_last(), j);
            assert(s.drop_last().take(j) =~= s.take(j));
            lemma_digits_grow(s.drop_last(), s.drop_last().len() as int);
            assert(s.drop_last().take(s.drop_last().len() as int) =~= s.drop_last());
        }
    } else {
        assert(s.take(j) =~= s);
    }
}

/// Reads the decimal number written in `b[lo..hi]`.
pub fn parse_decimal(b: &[u8], lo: usize, hi: usize) -> (r: Option<u64>)
    requires
        lo <= hi <= b@.len(),
    ensures
        r == decimal_of(b@.subrange(lo as int, hi as int)),
{
    let ghost s = b@.subrange(lo as int, hi as int);
    if lo == hi {
        return None;
    }
    let mut acc: u64 = 0;
    let mut k: usize = lo;
    assert(s.take(0) =~= Seq::<u8>::empty());
    while k < hi
        invariant
            lo <= k <= hi <= b@.len(),
            s == b@.subrange(lo as int, hi as int),
            forall|i: int| 0 <= i < k - lo ==> is_digit(#[trigger] s[i]),
            acc == digits_value(s.take(k - lo)),
        decreases hi - k,
    {
        let c = b[k];
        assert(s[k - lo] == c);
        assert(s.take(k - lo + 1).drop_last() =~= s.take(k - lo));
        if c < 48 || c > 57 {
            return None;
        }
        let next = match acc.checked_mul(10) {
            Some(m) => m.checked_add((c - 48) as u64),
            None => None,
        };
        match next {
            Some(v) => {
                acc = v;
            },
            None => {
                proof {
                    if forall|i: int| 0 <= i < s.len() ==> is_digit(#[trigger] s[i]) {
                        lemma_digits_grow(s, k - lo + 1);
                    }
                }
                return None;
            },
        }
        k = k + 1;
    }
    assert(s.take(k - lo) =~= s);
    Some(acc)
}

/// The first column of header `hf` named `name`.
pub open spec fn col_of(hf: Seq<Seq<u8>>, name: Seq<u8>) -> Option<int>
    decreases hf.len(),
{
    if hf.len() == 0 {
        None
    } else {
        match col_of(hf.drop_last(), name) {
            Some(j) => Some(j),
            None => if hf.last() == name {
                Some(hf.len() - 1)
            } else {
                None
            },
        }
    }
}

proof fn lemma_col_absent(hf: Seq<Seq<u8>>, name: Seq<u8>)
    requires
        forall|i: int| 0 <= i < hf.len() ==> (#[trigger] hf[i]) != name,
    ensures
        col_of(hf, name) is None,
    decreases hf.len(),
{
    if hf.len() > 0 {
        assert forall|i: int| 0 <= i < hf.len() - 1 implies (#[trigger] hf.drop_last()[i]) != name by {
            assert(hf.drop_last()[i] == hf[i]);
        }
        lemma_col_absent(hf.drop_last(), name);
    }
}

proof fn lemma_col_first(hf: Seq<Seq<u8>>, name: Seq<u8>, j: int)
    requires
        0 <= j < hf.len(),
        hf[j] == name,
        forall|i: int| 0 <= i < j ==> (#[trigger] hf[i]) != name,
    ensures
        col_of(hf, name) == Some(j),
    decreases hf.len(),
{
    if j < hf.len() - 1 {
        assert forall|i: int| 0 <= i < j implies (#[trigger] hf.drop_last()[i]) != name by {
            assert(hf.drop_last()[i] == hf[i]);
        }
        lemma_col_first(hf.drop_last(), name, j);
    } else {
        assert forall|i: int| 0 <= i < hf.len() - 1 implies (#[trigger] hf.drop_last()[i]) != name by {
            assert(hf.drop_last()[i] == hf[i]);
        }
        lemma_col_absent(hf.drop_last(), name);
    }
}

/// Is `b[lo..hi]` the text `name`?
fn range_eq(b: &[u8], lo: usize, hi: usize, name: &Vec<u8>) -> (r: bool)
    requires
        lo <= hi <= b@.len(),
    ensures
        r == (b@.subrange(lo as int, hi as int) == name@),
{
    if hi - lo != name.len() {
        return false;
    }
    let mut i: usize = 0;
    while i < name.len()
        invariant
            lo <= hi <= b@.len(),
            hi - lo == name@.len(),
            i <= name@.len(),
            forall|j: int| 0 <= j < i ==> b@[lo + j] == name@[j],
        decreases name@.len() - i,
    {
        if b[lo + i] != name[i] {
            assert(b@.subrange(lo as int, hi as int)[i as int] != name@[i as int]);
            return false;
        }
        i = i + 1;
    }
    assert(b@.subrange(lo as int, hi as int) =~= name@);
    true
}

/// The ranges of `b` that `ranges` gives, as texts.
pub open spec fn texts(b: Seq<u8>, ranges: Seq<(usize, usize)>) -> Seq<Seq<u8>> {
    ranges.map_values(|r: (usize, usize)| b.subrange(r.0 as int, r.1 as int))
}

/// The position of the first column named `name` among the header fields
/// at `ranges`.
fn find_column(b: &[u8], ranges: &Vec<(usize, usize)>, name: &Vec<u8>) -> (r: Option<usize>)
    requires
        forall|i: int| 0 <= i < ranges@.len() ==> (#[trigger] ranges@[i]).0 <= ranges@[i].1 <= b@.len(),
    ensures
        r matches Some(j) ==> j < ranges@.len(),
        col_of(texts(b@, ranges@), name@) == match r {
            Some(j) => Some(j as int),
            None => None::<int>,
        },
{
    let ghost hf = texts(b@, ranges@);
    let mut i: usize = 0;
    while i < ranges.len()
        invariant
            i <= ranges@.len(),
            hf == texts(b@, ranges@),
            forall|j: int| 0 <= j < ranges@.len() ==> (#[trigger] ranges@[j]).0 <= ranges@[j].1 <= b@.len(),
            forall|j: int| 0 <= j < i ==> (#[trigger] hf[j]) != name@,
        decreases ranges@.len() - i,
    {
        let (lo, hi) = ranges[i];
        if range_eq(b, lo, hi, name) {
            proof {
                lemma_col_first(hf, name@, i as int);
            }
            return Some(i);
        }
        i = i + 1;
    }
    proof {
        lemma_col_absent(hf, name@);
    }
    None
}

/// `s` with each `""` read as one `"`.
pub open spec fn undouble(s: Seq<u8>) -> Seq<u8>
    decreases s.len(),
{
    if s.len() == 0 {
        s
    } else if s.len() >= 2 && s[0] == QUOTE && s[1] == QUOTE {
        seq![QUOTE] + undouble(s.skip(2))
    } else {
        seq![s[0]] + undouble(s.skip(1))
    }
}

/// What a field holds: for a field in quotes, what stands between them,
/// with `""` read as `"`; for another, the field as it is.
pub open spec fn unquote(t: Seq<u8>) -> Seq<u8> {
    if t.len() >= 2 && t[0] == QUOTE && t.last() == QUOTE {
        undouble(t.subrange(1, t.len() - 1))
    } else {
        t
    }
}

/// What `b[lo..hi]` holds as a field.
fn unquoted(b: &[u8], lo: usize, hi: usize) -> (r: Vec<u8>)
    requires
        lo <= hi <= b@.len(),
    ensures
        r@ == unquote(b@.subrange(lo as int, hi as int)),
{
    let ghost t = b@.subrange(lo as int, hi as int);
    let mut out: Vec<u8> = Vec::new();
    if hi - lo >= 2 && b[lo] == QUOTE && b[hi - 1] == QUOTE {
        let end = hi - 1;
        let mut k: usize = lo + 1;
        assert(t.subrange(1, t.len() - 1) =~= b@.subrange(lo + 1, end as int));
        while k < end
            invariant
                lo + 1 <= k <= end < hi <= b@.len(),
                out@ + undouble(b@.subrange(k as int, end as int)) == undouble(
                    b@.subrange(lo + 1, end as int),
                ),
            decreases end - k,
        {
            let ghost rest = b@.subrange(k as int, end as int);
            let ghost prev = out@;
            if b[k] == QUOTE && k + 1 < end && b[k + 1] == QUOTE {
                assert(rest[0] == QUOTE && rest[1] == QUOTE);
                assert(rest.skip(2) =~= b@.subrange(k + 2, end as int));
                out.push(QUOTE);
                assert(out@ + undouble(b@.subrange(k + 2, end as int)) =~= prev + undouble(rest));
                k = k + 2;
            } else {
                assert(rest[0] == b@[k as int]);
                assert(rest.skip(1) =~= b@.subrange(k + 1, end as int));
                out.push(b[k]);
                assert(out@ + undouble(b@.subrange(k + 1, end as int)) =~= prev + undouble(rest));
                k = k + 1;
            }
        }
        assert(b@.subrange(k as int, end as int) =~= Seq::<u8>::empty());
        assert(out@ + undouble(b@.subrange(k as int, end as int)) =~= out@);
    } else {
        let mut k: usize = lo;
        while k < hi
            invariant
                lo <= k <= hi <= b@.len(),
                out@ == b@.subrange(lo as int, k as int),
            decreases hi - k,
        {
            out.push(b[k]);
            assert(out@ =~= b@.subrange(lo as int, k + 1));
            k = k + 1;
        }
    }
    out
}

/// The cell of column `c` in a line, where the line has that many fields:
/// what the field holds.
pub open spec fn cell(line: Seq<u8>, c: int) -> Option<Seq<u8>> {
    let f = fields_of(line, COMMA);
    if 0 <= c < f.len() {
        Some(unquote(f[c]))
    } else {
        None
    }
}

/// The number in column `c` of a line.
pub open spec fn number_at(line: Seq<u8>, c: int) -> Option<u64> {
    match cell(line, c) {
        Some(t) => decimal_of(t),
        None => None,
    }
}

/// The records that lines `1..n` give, one for each non-empty line, in
/// order; or the number of the first line that `dec` cannot read.
pub open spec fn rows_upto<R>(lines: Seq<Seq<u8>>, dec: spec_fn(Seq<u8>) -> Option<R>, n: int) -> Result<
    Seq<R>,
    int,
>
    decreases n,
{
    if n <= 1 {
        Ok(Seq::empty())
    } else {
        match rows_upto(lines, dec, n - 1) {
            Err(l) => Err(l),
            Ok(rs) => if lines[n - 1].len() == 0 {
                Ok(rs)
            } else {
                match dec(lines[n - 1]) {
                    Some(x) => Ok(rs.push(x)),
                    None => Err(n - 1),
                }
            },
        }
    }
}

proof fn lemma_rows_err_stays<R>(lines: Seq<Seq<u8>>, dec: spec_fn(Seq<u8>) -> Option<R>, n: int, m: int)
    requires
        1 <= n <= m,
        rows_upto(lines, dec, n) is Err,
    ensures
        rows_upto(lines, dec, m) == rows_upto(lines, dec, n),
    decreases m - n,
{
    if m > n {
        lemma_rows_err_stays(lines, dec, n, m - 1);
    }
}

/// Which table a parse error is in.
#[derive(Clone, Copy, Debug, PartialEq, Eq, Structural)]
pub enum TableKind {
    Packages,
    Owners,
    Members,
    Users,
    Teams,
}

/// A table that could not be read: a required column is missing from its
/// header (line 0), or a line cannot be read as a record.
#[derive(Clone, Copy, Debug, PartialEq, Eq, Structural)]
pub enum ParseError {
    Malformed { table: TableKind, line: usize },
}

/// The ranges of the fields of `b[lo..hi]`, with what they hold.
fn line_fields(b: &[u8], lo: usize, hi: usize) -> (r: Vec<(usize, usize)>)
    requires
        lo <= hi <= b@.len(),
    ensures
        texts(b@, r@) == fields_of(b@.subrange(lo as int, hi as int), COMMA),
        forall|i: int| 0 <= i < r@.len() ==> (#[trigger] r@[i]).0 <= r@[i].1 <= b@.len(),
{
    let r = split_ranges(b, lo, hi, COMMA);
    assert(texts(b@, r@) =~= fields_of(b@.subrange(lo as int, hi as int), COMMA));
    r
}

/// The number in field `c` of a line whose fields lie at `f`.
fn number_in(b: &[u8], f: &Vec<(usize, usize)>, c: usize) -> (r: Option<u64>)
    requires
        forall|i: int| 0 <= i < f@.len() ==> (#[trigger] f@[i]).0 <= f@[i].1 <= b@.len(),
    ensures
        r == (if c < f@.len() {
            decimal_of(unquote(texts(b@, f@)[c as int]))
        } else {
            None
        }),
{
    if c < f.len() {
        let (lo, hi) = f[c];
        let v = unquoted(b, lo, hi);
        let r = parse_decimal(v.as_slice(), 0, v.len());
        assert(v@.subrange(0, v@.len() as int) =~= v@);
        r
    } else {
        None
    }
}

/// The names of the columns that are read.
pub open spec fn col_id() -> Seq<u8> {
    seq![105u8, 100u8]
}

pub open spec fn col_name() -> Seq<u8> {
    seq![110u8, 97u8, 109u8, 101u8]
}

pub open spec fn col_crate_id() -> Seq<u8> {
    seq![99u8, 114u8, 97u8, 116u8, 101u8, 95u8, 105u8, 100u8]
}

pub open spec fn col_owner_id() -> Seq<u8> {
    seq![111u8, 119u8, 110u8, 101u8, 114u8, 95u8, 105u8, 100u8]
}

pub open spec fn col_owner_kind() -> Seq<u8> {
    seq![111u8, 119u8, 110u8, 101u8, 114u8, 95u8, 107u8, 105u8, 110u8, 100u8]
}

pub open spec fn col_team_id() -> Seq<u8> {
    seq![116u8, 101u8, 97u8, 109u8, 95u8, 105u8, 100u8]
}

pub open spec fn col_user_id() -> Seq<u8> {
    seq![117u8, 115u8, 101u8, 114u8, 95u8, 105u8, 100u8]
}

/// The column name `id`.
fn column_id() -> (r: Vec<u8>)
    ensures
        r@ == col_id(),
{
    let r: Vec<u8> = vec![105, 100];
    assert(r@ =~= col_id());
    r
}

/// The column name `name`.
fn column_name() -> (r: Vec<u8>)
    ensures
        r@ == col_name(),
{
    let r: Vec<u8> = vec![110, 97, 109, 101];
    assert(r@ =~= col_name());
    r
}

/// The column name `crate_id`.
fn column_crate_id() -> (r: Vec<u8>)
    ensures
        r@ == col_crate_id(),
{
    let r: Vec<u8> = vec![99, 114, 97, 116, 101, 95, 105, 100];
    assert(r@ =~= col_crate_id());
    r
}

/// The column name `owner_id`.
fn column_owner_id() -> (r: Vec<u8>)
    ensures
        r@ == col_owner_id(),
{
    let r: Vec<u8> = vec![111, 119, 110, 101, 114, 95, 105, 100];
    assert(r@ =~= col_owner_id());
    r
}

/// The column name `owner_kind`.
fn column_owner_kind() -> (r: Vec<u8>)
    ensures
        r@ == col_owner_kind(),
{
    let r: Vec<u8> = vec![111, 119, 110, 101, 114, 95, 107, 105, 110, 100];
    assert(r@ =~= col_owner_kind());
    r
}

/// The column name `team_id`.
fn column_team_id() -> (r: Vec<u8>)
    ensures
        r@ == col_team_id(),
{
    let r: Vec<u8> = vec![116, 101, 97, 109, 95, 105, 100];
    assert(r@ =~= col_team_id());
    r
}

/// The column name `user_id`.
fn column_user_id() -> (r: Vec<u8>)
    ensures
        r@ == col_user_id(),
{
    let r: Vec<u8> = vec![117, 115, 101, 114, 95, 105, 100];
    assert(r@ =~= col_user_id());
    r
}

/// The owner row that a line gives: package, owner and kind (0 for a user,
/// 1 for a team) in columns `a`, `b` and `c`.
pub open spec fn owner_of(line: Seq<u8>, a: int, b: int, c: int) -> Option<OwnerRow> {
    match (number_at(line, a), number_at(line, b), number_at(line, c)) {
        (Some(p), Some(o), Some(k)) => if k == 0 {
            Some(OwnerRow { package_id: p, owner_id: o, kind: OwnerKind::User })
        } else if k == 1 {
            Some(OwnerRow { package_id: p, owner_id: o, kind: OwnerKind::Team })
        } else {
            None
        },
        _ => None,
    }
}

/// Reads a line as an owner row, with the columns at `a`, `b` and `c`.
pub open spec fn owner_dec(a: int, b: int, c: int) -> spec_fn(Seq<u8>) -> Option<OwnerRow> {
    |l: Seq<u8>| owner_of(l, a, b, c)
}

/// The rows of a package-owners table, from its text.
pub open spec fn owners_table(text: Seq<u8>) -> Result<Seq<OwnerRow>, int> {
    let lines = fields_of(text, NEWLINE);
    let hf = fields_of(lines[0], COMMA);
    match (col_of(hf, col_crate_id()), col_of(hf, col_owner_id()), col_of(hf, col_owner_kind())) {
        (Some(a), Some(b), Some(c)) => rows_upto(lines, owner_dec(a, b, c), lines.len() as int),
        _ => Err(0),
    }
}

/// The header's fields, and the lines of the text.
fn lines_and_header(text: &[u8]) -> (r: (Vec<(usize, usize)>, Vec<(usize, usize)>))
    ensures
        texts(text@, r.0@) == fields_of(text@, NEWLINE),
        forall|i: int| 0 <= i < r.0@.len() ==> (#[trigger] r.0@[i]).0 <= r.0@[i].1 <= text@.len(),
        r.0@.len() >= 1,
        texts(text@, r.1@) == fields_of(fields_of(text@, NEWLINE)[0], COMMA),
        forall|i: int| 0 <= i < r.1@.len() ==> (#[trigger] r.1@[i]).0 <= r.1@[i].1 <= text@.len(),
{
    let lines = split_ranges(text, 0, text.len(), NEWLINE);
    assert(text@.subrange(0, text@.len() as int) =~= text@);
    assert(texts(text@, lines@) =~= fields_of(text@, NEWLINE));
    proof {
        lemma_fields_nonempty(text@, NEWLINE);
    }
    let (hlo, hhi) = lines[0];
    let header = line_fields(text, hlo, hhi);
    (lines, header)
}

/// Reads a package-owners table: columns `crate_id`, `owner_id` and
/// `owner_kind` (0 for a user, 1 for a team), others ignored.
pub fn parse_owners(text: &[u8]) -> (r: Result<Vec<OwnerRow>, ParseError>)
    ensures
        match owners_table(text@) {
            Ok(rows) => r matches Ok(v) && v@ == rows,
            Err(l) => r == Err::<Vec<OwnerRow>, ParseError>(
                ParseError::Malformed { table: TableKind::Owners, line: l as usize },
            ),
        },
{
    let (lines, header) = lines_and_header(text);
    let ghost ls = fields_of(text@, NEWLINE);
    let bad = ParseError::Malformed { table: TableKind::Owners, line: 0 };
    let a = match find_column(text, &header, &column_crate_id()) {
        Some(x) => x,
        None => return Err(bad),
    };
    let b = match find_column(text, &header, &column_owner_id()) {
        Some(x) => x,
        None => return Err(bad),
    };
    let c = match find_column(
        text,
        &header,
        &column_owner_kind(),
    ) {
        Some(x) => x,
        None => return Err(bad),
    };
    let ghost dec = owner_dec(a as int, b as int, c as int);
    let mut rows: Vec<OwnerRow> = Vec::new();
    let mut i: usize = 1;
    while i < lines.len()
        invariant
            1 <= i <= lines@.len(),
            ls == texts(text@, lines@),
            forall|j: int| 0 <= j < lines@.len() ==> (#[trigger] lines@[j]).0 <= lines@[j].1 <= text@.len(),
            dec == owner_dec(a as int, b as int, c as int),
            ls == fields_of(text@, NEWLINE),
            col_of(fields_of(ls[0], COMMA), col_crate_id()) == Some(a as int),
            col_of(fields_of(ls[0], COMMA), col_owner_id()) == Some(b as int),
            col_of(fields_of(ls[0], COMMA), col_owner_kind()) == Some(c as int),
            rows_upto(ls, dec, i as int) == Ok::<Seq<OwnerRow>, int>(rows@),
        decreases lines@.len() - i,
    {
        let (lo, hi) = lines[i];
        assert(ls[i as int] == text@.subrange(lo as int, hi as int));
        if lo < hi {
            let f = line_fields(text, lo, hi);
            let p = number_in(text, &f, a);
            let o = number_in(text, &f, b);
            let k = number_in(text, &f, c);
            let row = match (p, o, k) {
                (Some(p), Some(o), Some(k)) => if k == 0 {
                    Some(OwnerRow { package_id: p, owner_id: o, kind: OwnerKind::User })
                } else if k == 1 {
                    Some(OwnerRow { package_id: p, owner_id: o, kind: OwnerKind::Team })
                } else {
                    None
                },
                _ => None,
            };
            assert(row == dec(ls[i as int]));
            match row {
                Some(x) => rows.push(x),
                None => {
                    assert(rows_upto(ls, dec, i + 1) == Err::<Seq<OwnerRow>, int>(i as int));
                    proof {
                        lemma_rows_err_stays(ls, dec, i + 1, ls.len() as int);
                    }
                    return Err(ParseError::Malformed { table: TableKind::Owners, line: i });
                },
            }
        }
        i = i + 1;
    }
    Ok(rows)
}


/// Reads a line as a membership row, with the columns at `a` and `b`.
pub open spec fn member_dec(a: int, b: int) -> spec_fn(Seq<u8>) -> Option<MemberRow> {
    |l: Seq<u8>|
        match (number_at(l, a), number_at(l, b)) {
            (Some(t), Some(u)) => Some(MemberRow { team_id: t, user_id: u }),
            _ => None,
        }
}

/// The rows of a team-membership table, from its text.
pub open spec fn members_table(text: Seq<u8>) -> Result<Seq<MemberRow>, int> {
    let lines = fields_of(text, NEWLINE);
    let hf = fields_of(lines[0], COMMA);
    match (col_of(hf, col_team_id()), col_of(hf, col_user_id())) {
        (Some(a), Some(b)) => rows_upto(lines, member_dec(a, b), lines.len() as int),
        _ => Err(0),
    }
}

/// The text that bytes encode in UTF-8, or none where they are no UTF-8.
pub open spec fn utf8_text(b: Seq<u8>) -> Option<Seq<char>> {
    if valid_utf8(b) {
        Some(decode_utf8(b))
    } else {
        None
    }
}

/// Relies on `String::from_utf8`: it succeeds exactly on valid UTF-8, and
/// then holds the characters that the bytes encode.
#[verifier::external_body]
fn text_of(b: &[u8]) -> (r: Option<String>)
    ensures
        utf8_text(b@) == match r {
            Some(s) => Some(s@),
            None => None::<Seq<char>>,
        },
{
    match String::from_utf8(b.to_vec()) {
        Ok(s) => Some(s),
        Err(_) => None,
    }
}

/// Reads a line as a package's number and name, with the columns at `a`
/// and `b`.
pub open spec fn package_dec(a: int, b: int) -> spec_fn(Seq<u8>) -> Option<(u64, Seq<char>)> {
    |l: Seq<u8>|
        match (number_at(l, a), cell(l, b)) {
            (Some(id), Some(t)) => match utf8_text(t) {
                Some(name) => Some((id, name)),
                None => None,
            },
            _ => None,
        }
}

/// The rows of a packages table, from its text: number and name.
pub open spec fn packages_table(text: Seq<u8>) -> Result<Seq<(u64, Seq<char>)>, int> {
    let lines = fields_of(text, NEWLINE);
    let hf = fields_of(lines[0], COMMA);
    match (col_of(hf, col_id()), col_of(hf, col_name())) {
        (Some(a), Some(b)) => rows_upto(lines, package_dec(a, b), lines.len() as int),
        _ => Err(0),
    }
}

/// Package rows as values.
pub open spec fn package_rows(v: Seq<PackageRow>) -> Seq<(u64, Seq<char>)> {
    v.map_values(|p: PackageRow| (p.id, p.name@))
}

/// Reads a team-membership table: columns `team_id` and `user_id`, others
/// ignored.
pub fn parse_members(text: &[u8]) -> (r: Result<Vec<MemberRow>, ParseError>)
    ensures
        match members_table(text@) {
            Ok(rows) => r matches Ok(v) && v@ == rows,
            Err(l) => r == Err::<Vec<MemberRow>, ParseError>(
                ParseError::Malformed { table: TableKind::Members, line: l as usize },
            ),
        },
{
    let (lines, header) = lines_and_header(text);
    let ghost ls = fields_of(text@, NEWLINE);
    let bad = ParseError::Malformed { table: TableKind::Members, line: 0 };
    let a = match find_column(text, &header, &column_team_id()) {
        Some(x) => x,
        None => return Err(bad),
    };
    let b = match find_column(text, &header, &column_user_id()) {
        Some(x) => x,
        None => return Err(bad),
    };
    let ghost dec = member_dec(a as int, b as int);
    let mut rows: Vec<MemberRow> = Vec::new();
    let mut i: usize = 1;
    while i < lines.len()
        invariant
            1 <= i <= lines@.len(),
            ls == texts(text@, lines@),
            forall|j: int| 0 <= j < lines@.len() ==> (#[trigger] lines@[j]).0 <= lines@[j].1 <= text@.len(),
            dec == member_dec(a as int, b as int),
            ls == fields_of(text@, NEWLINE),
            col_of(fields_of(ls[0], COMMA), col_team_id()) == Some(a as int),
            col_of(fields_of(ls[0], COMMA), col_user_id()) == Some(b as int),
            rows_upto(ls, dec, i as int) == Ok::<Seq<MemberRow>, int>(rows@),
        decreases lines@.len() - i,
    {
        let (lo, hi) = lines[i];
        assert(ls[i as int] == text@.subrange(lo as int, hi as int));
        if lo < hi {
            let f = line_fields(text, lo, hi);
            let t = number_in(text, &f, a);
            let u = number_in(text, &f, b);
            let row = match (t, u) {
                (Some(t), Some(u)) => Some(MemberRow { team_id: t, user_id: u }),
                _ => None,
            };
            assert(row == dec(ls[i as int]));
            match row {
                Some(x) => rows.push(x),
                None => {
                    assert(rows_upto(ls, dec, i + 1) == Err::<Seq<MemberRow>, int>(i as int));
                    proof {
                        lemma_rows_err_stays(ls, dec, i + 1, ls.len() as int);
                    }
                    return Err(ParseError::Malformed { table: TableKind::Members, line: i });
                },
            }
        }
        i = i + 1;
    }
    Ok(rows)
}

/// Reads a packages table: columns `id` and `name`, others ignored.
pub fn parse_packages(text: &[u8]) -> (r: Result<Vec<PackageRow>, ParseError>)
    ensures
        match packages_table(text@) {
            Ok(rows) => r matches Ok(v) && package_rows(v@) == rows,
            Err(l) => r == Err::<Vec<PackageRow>, ParseError>(
                ParseError::Malformed { table: TableKind::Packages, line: l as usize },
            ),
        },
{
    let (lines, header) = lines_and_header(text);
    let ghost ls = fields_of(text@, NEWLINE);
    let bad = ParseError::Malformed { table: TableKind::Packages, line: 0 };
    let a = match find_column(text, &header, &column_id()) {
        Some(x) => x,
        None => return Err(bad),
    };
    let b = match find_column(text, &header, &column_name()) {
        Some(x) => x,
        None => return Err(bad),
    };
    let ghost dec = package_dec(a as int, b as int);
    let mut rows: Vec<PackageRow> = Vec::new();
    assert(package_rows(rows@) =~= Seq::<(u64, Seq<char>)>::empty());
    let mut i: usize = 1;
    while i < lines.len()
        invariant
            1 <= i <= lines@.len(),
            ls == texts(text@, lines@),
            forall|j: int| 0 <= j < lines@.len() ==> (#[trigger] lines@[j]).0 <= lines@[j].1 <= text@.len(),
            dec == package_dec(a as int, b as int),
            ls == fields_of(text@, NEWLINE),
            col_of(fields_of(ls[0], COMMA), col_id()) == Some(a as int),
            col_of(fields_of(ls[0], COMMA), col_name()) == Some(b as int),
            rows_upto(ls, dec, i as int) == Ok::<Seq<(u64, Seq<char>)>, int>(package_rows(rows@)),
        decreases lines@.len() - i,
    {
        let (lo, hi) = lines[i];
        let ghost old_rows = rows@;
        assert(ls[i as int] == text@.subrange(lo as int, hi as int));
        if lo < hi {
            let f = line_fields(text, lo, hi);
            let id = number_in(text, &f, a);
            let name = text_at(text, &f, b);
            let row = match (id, name) {
                (Some(id), Some(name)) => Some(PackageRow { id, name }),
                _ => None,
            };
            assert(match row {
                Some(x) => dec(ls[i as int]) == Some((x.id, x.name@)),
                None => dec(ls[i as int]) is None,
            });
            match row {
                Some(x) => {
                    rows.push(x);
                    assert(package_rows(rows@) =~= package_rows(old_rows).push((x.id, x.name@)));
                },
                None => {
                    assert(rows_upto(ls, dec, i + 1) == Err::<Seq<(u64, Seq<char>)>, int>(i as int));
                    proof {
                        lemma_rows_err_stays(ls, dec, i + 1, ls.len() as int);
                    }
                    return Err(ParseError::Malformed { table: TableKind::Packages, line: i });
                },
            }
        }
        i = i + 1;
    }
    Ok(rows)
}

/// The text in field `c` of a line whose fields lie at `f`.
fn text_at(b: &[u8], f: &Vec<(usize, usize)>, c: usize) -> (r: Option<String>)
    requires
        forall|i: int| 0 <= i < f@.len() ==> (#[trigger] f@[i]).0 <= f@[i].1 <= b@.len(),
    ensures
        (if c < f@.len() {
            utf8_text(unquote(texts(b@, f@)[c as int]))
        } else {
            None
        }) == match r {
            Some(s) => Some(s@),
            None => None::<Seq<char>>,
        },
{
    if c < f.len() {
        let (lo, hi) = f[c];
        let v = unquoted(b, lo, hi);
        text_of(v.as_slice())
    } else {
        None
    }
}

/// Reads a line as an account's number, handle and name, with the columns
/// at `a`, `b` and `c`.
pub open spec fn account_dec(a: int, b: int, c: int) -> spec_fn(Seq<u8>) -> Option<
    (u64, Seq<char>, Seq<char>),
> {
    |l: Seq<u8>|
        match (number_at(l, a), cell(l, b), cell(l, c)) {
            (Some(id), Some(h), Some(n)) => match (utf8_text(h), utf8_text(n)) {
                (Some(h), Some(n)) => Some((id, h, n)),
                _ => None,
            },
            _ => None,
        }
}

/// The rows of a users or teams table, from its text, with the handle in
/// the column named `handle`.
pub open spec fn accounts_table(text: Seq<u8>, handle: Seq<u8>) -> Result<
    Seq<(u64, Seq<char>, Seq<char>)>,
    int,
> {
    let lines = fields_of(text, NEWLINE);
    let hf = fields_of(lines[0], COMMA);
    match (col_of(hf, col_id()), col_of(hf, handle), col_of(hf, col_name())) {
        (Some(a), Some(b), Some(c)) => rows_upto(lines, account_dec(a, b, c), lines.len() as int),
        _ => Err(0),
    }
}

/// Account rows as values.
pub open spec fn account_rows(v: Seq<AccountRow>) -> Seq<(u64, Seq<char>, Seq<char>)> {
    v.map_values(|r: AccountRow| (r.id, r.handle@, r.name@))
}

pub open spec fn col_login() -> Seq<u8> {
    seq![108u8, 111u8, 103u8, 105u8, 110u8]
}

pub open spec fn col_org() -> Seq<u8> {
    seq![111u8, 114u8, 103u8]
}

/// The column name `login`.
fn column_login() -> (r: Vec<u8>)
    ensures
        r@ == col_login(),
{
    let r: Vec<u8> = vec![108, 111, 103, 105, 110];
    assert(r@ =~= col_login());
    r
}

/// The column name `org`.
fn column_org() -> (r: Vec<u8>)
    ensures
        r@ == col_org(),
{
    let r: Vec<u8> = vec![111, 114, 103];
    assert(r@ =~= col_org());
    r
}

/// Reads a users or teams table: columns `id`, `handle` and `name`, others
/// ignored; errors name `table`.
fn parse_accounts(text: &[u8], handle: &Vec<u8>, table: TableKind) -> (r: Result<
    Vec<AccountRow>,
    ParseError,
>)
    ensures
        match accounts_table(text@, handle@) {
            Ok(rows) => r matches Ok(v) && account_rows(v@) == rows,
            Err(l) => r == Err::<Vec<AccountRow>, ParseError>(
                ParseError::Malformed { table, line: l as usize },
            ),
        },
{
    let (lines, header) = lines_and_header(text);
    let ghost ls = fields_of(text@, NEWLINE);
    let bad = ParseError::Malformed { table: table, line: 0 };
    let a = match find_column(text, &header, &column_id()) {
        Some(x) => x,
        None => return Err(bad),
    };
    let b = match find_column(text, &header, handle) {
        Some(x) => x,
        None => return Err(bad),
    };
    let c = match find_column(text, &header, &column_name()) {
        Some(x) => x,
        None => return Err(bad),
    };
    let ghost dec = account_dec(a as int, b as int, c as int);
    let mut rows: Vec<AccountRow> = Vec::new();
    assert(account_rows(rows@) =~= Seq::<(u64, Seq<char>, Seq<char>)>::empty());
    let mut i: usize = 1;
    while i < lines.len()
        invariant
            1 <= i <= lines@.len(),
            ls == texts(text@, lines@),
            forall|j: int| 0 <= j < lines@.len() ==> (#[trigger] lines@[j]).0 <= lines@[j].1 <= text@.len(),
            dec == account_dec(a as int, b as int, c as int),
            ls == fields_of(text@, NEWLINE),
            col_of(fields_of(ls[0], COMMA), col_id()) == Some(a as int),
            col_of(fields_of(ls[0], COMMA), handle@) == Some(b as int),
            col_of(fields_of(ls[0], COMMA), col_name()) == Some(c as int),
            rows_upto(ls, dec, i as int) == Ok::<Seq<(u64, Seq<char>, Seq<char>)>, int>(account_rows(rows@)),
        decreases lines@.len() - i,
    {
        let (lo, hi) = lines[i];
        let ghost old_rows = rows@;
        assert(ls[i as int] == text@.subrange(lo as int, hi as int));
        if lo < hi {
            let f = line_fields(text, lo, hi);
            let id = number_in(text, &f, a);
            let h = text_at(text, &f, b);
            let name = text_at(text, &f, c);
            let row = match (id, h, name) {
                (Some(id), Some(handle), Some(name)) => Some(AccountRow { id, handle, name }),
                _ => None,
            };
            assert(match row {
                Some(x) => dec(ls[i as int]) == Some((x.id, x.handle@, x.name@)),
                None => dec(ls[i as int]) is None,
            });
            match row {
                Some(x) => {
                    rows.push(x);
                    assert(account_rows(rows@) =~= account_rows(old_rows).push((x.id, x.handle@, x.name@)));
                },
                None => {
                    assert(rows_upto(ls, dec, i + 1) == Err::<Seq<(u64, Seq<char>, Seq<char>)>, int>(i as int));
                    proof {
                        lemma_rows_err_stays(ls, dec, i + 1, ls.len() as int);
                    }
                    return Err(ParseError::Malformed { table: table, line: i });
                },
            }
        }
        i = i + 1;
    }
    Ok(rows)
}

/// Reads a users table: columns `id`, `login` and `name`, others ignored.
pub fn parse_users(text: &[u8]) -> (r: Result<Vec<AccountRow>, ParseError>)
    ensures
        match accounts_table(text@, col_login()) {
            Ok(rows) => r matches Ok(v) && account_rows(v@) == rows,
            Err(l) => r == Err::<Vec<AccountRow>, ParseError>(
                ParseError::Malformed { table: TableKind::Users, line: l as usize },
            ),
        },
{
    parse_accounts(text, &column_login(), TableKind::Users)
}

/// Reads a teams table: columns `id`, `org` and `name`, others ignored.
pub fn parse_teams(text: &[u8]) -> (r: Result<Vec<AccountRow>, ParseError>)
    ensures
        match accounts_table(text@, col_org()) {
            Ok(rows) => r matches Ok(v) && account_rows(v@) == rows,
            Err(l) => r == Err::<Vec<AccountRow>, ParseError>(
                ParseError::Malformed { table: TableKind::Teams, line: l as usize },
            ),
        },
{
    parse_accounts(text, &column_org(), TableKind::Teams)
}

/// The index that a snapshot's rows give: each package, in table order,
/// with its name and its publishers.
pub open spec fn index_from(
    ps: Seq<(u64, Seq<char>)>,
    os: Seq<OwnerRow>,
    ms: Seq<MemberRow>,
) -> Seq<(Seq<char>, Set<AccountId>)> {
    ps.map_values(|p: (u64, Seq<char>)| (p.1, publishers_spec(os, ms, p.0)))
}

/// Reads a snapshot's three tables and builds its index. The first table
/// that cannot be read, in the order packages, owners, members, gives the
/// error.
pub fn build_index(packages: &[u8], owners: &[u8], members: &[u8]) -> (r: Result<
    RegistryIndex,
    ParseError,
>)
    ensures
        match (packages_table(packages@), owners_table(owners@), members_table(members@)) {
            (Ok(ps), Ok(os), Ok(ms)) => r matches Ok(ix) && ix.wf() && ix@ == index_from(ps, os, ms),
            (Err(l), _, _) => r == Err::<RegistryIndex, ParseError>(
                ParseError::Malformed { table: TableKind::Packages, line: l as usize },
            ),
            (Ok(_), Err(l), _) => r == Err::<RegistryIndex, ParseError>(
                ParseError::Malformed { table: TableKind::Owners, line: l as usize },
            ),
            (Ok(_), Ok(_), Err(l)) => r == Err::<RegistryIndex, ParseError>(
                ParseError::Malformed { table: TableKind::Members, line: l as usize },
            ),
        },
{
    let ps = match parse_packages(packages) {
        Ok(v) => v,
        Err(e) => return Err(e),
    };
    let os = match parse_owners(owners) {
        Ok(v) => v,
        Err(e) => return Err(e),
    };
    let ms = match parse_members(members) {
        Ok(v) => v,
        Err(e) => return Err(e),
    };
    let t = Tables { packages: ps, owners: os, members: ms };
    let ix = RegistryIndex::build(&t);
    assert(index_of(t) =~= index_from(package_rows(t.packages@), t.owners@, t.members@));
    Ok(ix)
}

} // verus!
