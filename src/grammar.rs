use vstd::prelude::*;
use vstd::string::StringSliceAdditionalSpecFns;

use crate::asset_id::{digits3, AssetId};
use crate::list::ListEntry;

verus! {

/// What the parser was looking for where the input went wrong.
#[derive(Clone, Copy, Debug, PartialEq, Eq, Structural)]
pub enum Expected {
    /// An identifier: three digits, a hyphen and three digits.
    Identifier,
    /// A comma before a further item, or the end of the input.
    SeparatorOrEnd,
}

/// The input does not spell a list; nothing of it is returned.
#[derive(Clone, Copy, Debug, PartialEq, Eq, Structural)]
pub struct SyntaxError {
    /// Byte offset in the input at which the parser stopped.
    pub position: usize,
    /// What would have been accepted there.
    pub expected: Expected,
}

pub open spec fn is_digit(b: u8) -> bool {
    48 <= b <= 57
}

pub open spec fn is_space(b: u8) -> bool {
    b == 32
}

/// The value of three ASCII digits at `i`, if there are three there.
pub open spec fn component_at(s: Seq<u8>, i: int) -> Option<u16> {
    if 0 <= i && i + 3 <= s.len() && is_digit(s[i]) && is_digit(s[i + 1]) && is_digit(s[i + 2]) {
        Some(((s[i] - 48) * 100 + (s[i + 1] - 48) * 10 + (s[i + 2] - 48)) as u16)
    } else {
        None
    }
}

/// The identifier spelled by the seven bytes `ddd-ddd` at `i`, if any.
pub open spec fn id_at(s: Seq<u8>, i: int) -> Option<AssetId> {
    match (component_at(s, i), component_at(s, i + 4)) {
        (Some(a), Some(b)) => if s[i + 3] == 45 {
            Some(AssetId(a, b))
        } else {
            None
        },
        _ => None,
    }
}

/// The first position at or after `i` that holds no space.
pub open spec fn after_spaces(s: Seq<u8>, i: int) -> int
    decreases s.len() - i,
{
    if 0 <= i < s.len() && is_space(s[i]) {
        after_spaces(s, i + 1)
    } else {
        i
    }
}

/// The item that starts at `i`, with the position just past it. An item is
/// an identifier, or a range: two identifiers joined by `--`, with spaces
/// allowed on both sides of the `--`.
pub open spec fn item_at(s: Seq<u8>, i: int) -> Result<(ListEntry, int), SyntaxError> {
    match id_at(s, i) {
        None => Err(SyntaxError { position: i as usize, expected: Expected::Identifier }),
        Some(from) => {
            let j = after_spaces(s, i + 7);
            if j + 2 <= s.len() && s[j] == 45 && s[j + 1] == 45 {
                let k = after_spaces(s, j + 2);
                match id_at(s, k) {
                    None => Err(SyntaxError { position: k as usize, expected: Expected::Identifier }),
                    Some(to) => Ok((ListEntry::Range { from, to }, k + 7)),
                }
            } else {
                Ok((ListEntry::Id(from), i + 7))
            }
        },
    }
}

/// The items from `i` on: spaces, an item, spaces, and then either the end
/// of the input or a comma followed by further items.
pub open spec fn items_from(s: Seq<u8>, i: int) -> Result<Seq<ListEntry>, SyntaxError>
    decreases s.len() - i,
    via items_from_decreases
{
    match item_at(s, after_spaces(s, i)) {
        Err(e) => Err(e),
        Ok((entry, end)) => {
            let q = after_spaces(s, end);
            if q >= s.len() {
                Ok(seq![entry])
            } else if s[q] == 44 {
                match items_from(s, q + 1) {
                    Ok(rest) => Ok(seq![entry] + rest),
                    Err(e) => Err(e),
                }
            } else {
                Err(SyntaxError { position: q as usize, expected: Expected::SeparatorOrEnd })
            }
        },
    }
}

/// The list that the bytes `s` spell, or where and why they do not.
pub open spec fn parsed(s: Seq<u8>) -> Result<Seq<ListEntry>, SyntaxError> {
    items_from(s, 0)
}

/// `prefix` ahead of what `rest` holds, or the error of `rest`.
pub open spec fn prepend(prefix: Seq<ListEntry>, rest: Result<Seq<ListEntry>, SyntaxError>) -> Result<
    Seq<ListEntry>,
    SyntaxError,
> {
    match rest {
        Ok(v) => Ok(prefix + v),
        Err(e) => Err(e),
    }
}

proof fn lemma_after_spaces(s: Seq<u8>, i: int)
    ensures
        i <= after_spaces(s, i),
        0 <= i <= s.len() ==> after_spaces(s, i) <= s.len(),
    decreases s.len() - i,
{
    if 0 <= i < s.len() && is_space(s[i]) {
        lemma_after_spaces(s, i + 1);
    }
}

proof fn lemma_item_at(s: Seq<u8>, i: int)
    ensures
        item_at(s, i) is Ok ==> {
            &&& i + 7 <= item_at(s, i)->Ok_0.1 <= s.len()
            &&& item_at(s, i)->Ok_0.0.wf()
        },
{
    lemma_after_spaces(s, i + 7);
    let j = after_spaces(s, i + 7);
    lemma_after_spaces(s, j + 2);
}

#[via_fn]
proof fn items_from_decreases(s: Seq<u8>, i: int) {
    lemma_after_spaces(s, i);
    let p = after_spaces(s, i);
    lemma_item_at(s, p);
    if let Ok((_, end)) = item_at(s, p) {
        lemma_after_spaces(s, end);
    }
}

fn skip_spaces(s: &[u8], i: usize) -> (r: usize)
    requires
        i <= s@.len(),
    ensures
        r == after_spaces(s@, i as int),
{
    let mut j = i;
    while j < s.len() && s[j] == 32
        invariant
            i <= j <= s@.len(),
            after_spaces(s@, j as int) == after_spaces(s@, i as int),
        decreases s@.len() - j,
    {
        j = j + 1;
    }
    j
}

fn read_component(s: &[u8], i: usize) -> (r: Option<u16>)
    ensures
        r == component_at(s@, i as int),
{
    if s.len() < 3 || i > s.len() - 3 {
        return None;
    }
    let (d0, d1, d2) = (s[i], s[i + 1], s[i + 2]);
    if 48 <= d0 && d0 <= 57 && 48 <= d1 && d1 <= 57 && 48 <= d2 && d2 <= 57 {
        Some((d0 - 48) as u16 * 100 + (d1 - 48) as u16 * 10 + (d2 - 48) as u16)
    } else {
        None
    }
}

fn parse_id(s: &[u8], i: usize) -> (r: Option<AssetId>)
    ensures
        r == id_at(s@, i as int),
        r is Some ==> i + 7 <= s@.len(),
{
    if s.len() < 7 || i > s.len() - 7 {
        return None;
    }
    match (read_component(s, i), read_component(s, i + 4)) {
        (Some(a), Some(b)) => if s[i + 3] == 45 {
            Some(AssetId(a, b))
        } else {
            None
        },
        _ => None,
    }
}

fn parse_range_or_id(s: &[u8], i: usize) -> (r: Result<(ListEntry, usize), SyntaxError>)
    requires
        i <= s@.len(),
    ensures
        match r {
            Ok((entry, end)) => item_at(s@, i as int) == Ok::<(ListEntry, int), SyntaxError>(
                (entry, end as int),
            ),
            Err(e) => item_at(s@, i as int) == Err::<(ListEntry, int), SyntaxError>(e),
        },
{
    let from = match parse_id(s, i) {
        None => return Err(SyntaxError { position: i, expected: Expected::Identifier }),
        Some(from) => from,
    };
    let n = s.len();
    let j = skip_spaces(s, i + 7);
    proof {
        lemma_after_spaces(s@, i + 7);
    }
    if n >= 2 && j <= n - 2 && s[j] == 45 && s[j + 1] == 45 {
        let k = skip_spaces(s, j + 2);
        proof {
            lemma_after_spaces(s@, j + 2);
        }
        match parse_id(s, k) {
            None => Err(SyntaxError { position: k, expected: Expected::Identifier }),
            Some(to) => Ok((ListEntry::Range { from, to }, k + 7)),
        }
    } else {
        Ok((ListEntry::Id(from), i + 7))
    }
}

/// Parses a comma-separated list of identifiers and ranges from the bytes of
/// the input. Spaces may stand between any two tokens, but not inside an
/// identifier; the whole input must be taken up.
pub fn parse_bytes(s: &[u8]) -> (r: Result<Vec<ListEntry>, SyntaxError>)
    ensures
        match r {
            Ok(v) => parsed(s@) == Ok::<Seq<ListEntry>, SyntaxError>(v@),
            Err(e) => parsed(s@) == Err::<Seq<ListEntry>, SyntaxError>(e),
        },
        r is Ok ==> forall|k: int|
            0 <= k < r->Ok_0@.len() ==> (#[trigger] r->Ok_0@[k]).wf(),
{
    let mut out: Vec<ListEntry> = Vec::new();
    let mut pos: usize = 0;
    loop
        invariant
            pos <= s@.len(),
            parsed(s@) == prepend(out@, items_from(s@, pos as int)),
            forall|k: int| 0 <= k < out@.len() ==> (#[trigger] out@[k]).wf(),
        decreases s@.len() - pos,
    {
        let start = skip_spaces(s, pos);
        proof {
            lemma_after_spaces(s@, pos as int);
        }
        let (entry, end) = match parse_range_or_id(s, start) {
            Err(e) => return Err(e),
            Ok(item) => item,
        };
        proof {
            lemma_item_at(s@, start as int);
            lemma_after_spaces(s@, end as int);
        }
        let q = skip_spaces(s, end);
        let ghost before = out@;
        out.push(entry);
        if q >= s.len() {
            assert(out@ =~= before + seq![entry]);
            return Ok(out);
        } else if s[q] == 44 {
            assert(out@ =~= before + seq![entry]);
            proof {
                let rest = items_from(s@, q + 1);
                if let Ok(v) = rest {
                    assert(before + (seq![entry] + v) =~= out@ + v);
                }
            }
            pos = q + 1;
        } else {
            return Err(SyntaxError { position: q, expected: Expected::SeparatorOrEnd });
        }
    }
}

/// Parses a list of identifiers and ranges, such as
/// `012-000--012-010,013-005`. Ranges are not checked for direction here.
pub fn parse(input: &str) -> (r: Result<Vec<ListEntry>, SyntaxError>)
    ensures
        match r {
            Ok(v) => parsed(input.spec_bytes()) == Ok::<Seq<ListEntry>, SyntaxError>(v@),
            Err(e) => parsed(input.spec_bytes()) == Err::<Seq<ListEntry>, SyntaxError>(e),
        },
        r is Ok ==> forall|k: int|
            0 <= k < r->Ok_0@.len() ==> (#[trigger] r->Ok_0@[k]).wf(),
{
    parse_bytes(input.as_bytes())
}

proof fn lemma_digits3_value(n: int)
    requires
        0 <= n <= 999,
    ensures
        component_at(digits3(n), 0) == Some(n as u16),
{
    let (h, t, u) = (n / 100, n / 10 % 10, n % 10);
    assert(0 <= h <= 9 && 0 <= t <= 9 && 0 <= u <= 9 && h * 100 + t * 10 + u == n)
        by (nonlinear_arith)
        requires 0 <= n <= 999, h == n / 100, t == n / 10 % 10, u == n % 10;
}

/// Rendering a valid identifier and parsing the text back gives a list of one
/// entry that holds that same identifier.
pub proof fn lemma_render_then_parse(id: AssetId)
    requires
        id.wf(),
    ensures
        parsed(id.text()) == Ok::<Seq<ListEntry>, SyntaxError>(seq![ListEntry::Id(id)]),
{
    let s = id.text();
    let (a, b) = (id.0 as int, id.1 as int);
    lemma_digits3_value(a);
    lemma_digits3_value(b);
    assert(s.subrange(0, 3) =~= digits3(a));
    assert(s.subrange(4, 7) =~= digits3(b));
    assert(component_at(s, 0) == Some(id.0));
    assert(component_at(s, 4) == Some(id.1));
    assert(id_at(s, 0) == Some(id));
    assert(after_spaces(s, 0) == 0);
    assert(after_spaces(s, 7) == 7);
    assert(item_at(s, 0) == Ok::<(ListEntry, int), SyntaxError>((ListEntry::Id(id), 7)));
}

} // verus!
