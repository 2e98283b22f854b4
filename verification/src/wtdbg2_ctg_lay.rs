//! The contig-layout line grammar: typed records, the per-record context
//! that fixes input order, and parsing and formatting of layout lines.

use vstd::prelude::*;
use vstd::slice::slice_subrange;
use vstd::slice::slice_to_vec;

verus! {

/// A layout record paired with the context the parser assigned to it.
#[derive(Clone, Debug)]
pub struct Wtdbg2CtgLayLineWithContext {
    pub line: Wtdbg2CtgLayLine,
    pub context: LineContext,
}

/// One line of a contig layout file.
#[derive(Clone, PartialEq, Eq, Debug)]
pub enum Wtdbg2CtgLayLine {
    Contig { name: Vec<u8>, node_count: u64, length: u64 },
    Edge {
        offset: u64,
        from_node: Vec<u8>,
        /// True for forwards (+), false for backwards (-).
        from_direction: bool,
        to_node: Vec<u8>,
        /// True for forwards (+), false for backwards (-).
        to_direction: bool,
    },
    Alignment {
        read_id: Vec<u8>,
        /// True for forwards (+), false for backwards (-).
        direction: bool,
        offset: usize,
        length: usize,
        original_length: usize,
    },
}

/// The mathematical shape of a layout record: byte fields as sequences.
pub enum LayLineView {
    Contig { name: Seq<u8>, node_count: u64, length: u64 },
    Edge {
        offset: u64,
        from_node: Seq<u8>,
        from_direction: bool,
        to_node: Seq<u8>,
        to_direction: bool,
    },
    Alignment {
        read_id: Seq<u8>,
        direction: bool,
        offset: usize,
        length: usize,
        original_length: usize,
    },
}

impl View for Wtdbg2CtgLayLine {
    type V = LayLineView;

    open spec fn view(&self) -> LayLineView {
        match self {
            Wtdbg2CtgLayLine::Contig { name, node_count, length } => LayLineView::Contig {
                name: name@,
                node_count: *node_count,
                length: *length,
            },
            Wtdbg2CtgLayLine::Edge {
                offset,
                from_node,
                from_direction,
                to_node,
                to_direction,
            } => LayLineView::Edge {
                offset: *offset,
                from_node: from_node@,
                from_direction: *from_direction,
                to_node: to_node@,
                to_direction: *to_direction,
            },
            Wtdbg2CtgLayLine::Alignment {
                read_id,
                direction,
                offset,
                length,
                original_length,
            } => LayLineView::Alignment {
                read_id: read_id@,
                direction: *direction,
                offset: *offset,
                length: *length,
                original_length: *original_length,
            },
        }
    }
}

/// The monotone key the parser assigns to each record. An index of -1 means
/// that no record of that kind has been seen in the current scope.
#[derive(Clone, Copy, PartialEq, Eq, Structural, Debug)]
pub struct LineContext {
    pub contig_index: i64,
    pub edge_index: i64,
    pub alignment_index: i64,
    pub previous_contig_edge_count: i64,
    pub previous_edge_alignment_count: i64,
}

impl LineContext {
    /// Contexts the parser can produce: indices start at -1 and stay small
    /// enough to be advanced, carryover counts are never negative.
    pub open spec fn wf(self) -> bool {
        &&& -1 <= self.contig_index <= i64::MAX - 1
        &&& -1 <= self.edge_index <= i64::MAX - 1
        &&& -1 <= self.alignment_index <= i64::MAX - 1
        &&& 0 <= self.previous_contig_edge_count
        &&& 0 <= self.previous_edge_alignment_count
    }

    /// The context before the first record of the file.
    pub open spec fn initial() -> LineContext {
        LineContext {
            contig_index: -1i64,
            edge_index: -1i64,
            alignment_index: -1i64,
            previous_contig_edge_count: 0i64,
            previous_edge_alignment_count: 0i64,
        }
    }

    /// `other` is the record immediately after `self` in input order:
    /// either the next record of the same edge, or the first record of the
    /// next edge, or the first record of the next contig, with the
    /// carryover counts of `other` certifying that `self` closed its scope.
    pub open spec fn spec_directly_precedes(self, other: LineContext) -> bool {
        if self.contig_index != other.contig_index {
            &&& self.contig_index == other.contig_index - 1
            &&& self.edge_index == other.previous_contig_edge_count - 1
            &&& self.alignment_index == other.previous_edge_alignment_count - 1
        } else if self.edge_index != other.edge_index {
            &&& self.edge_index == other.edge_index - 1
            &&& (self.alignment_index == other.previous_edge_alignment_count - 1
                || self.edge_index == -1)
        } else {
            self.alignment_index == other.alignment_index - 1
        }
    }

    /// Strict lexicographic order on (contig, edge, alignment) indices.
    pub open spec fn spec_lt(self, other: LineContext) -> bool {
        ||| self.contig_index < other.contig_index
        ||| (self.contig_index == other.contig_index && self.edge_index < other.edge_index)
        ||| (self.contig_index == other.contig_index && self.edge_index == other.edge_index
            && self.alignment_index < other.alignment_index)
    }

    /// The carryover invariant of the total order: contexts that share a
    /// contig agree on that contig's edge count, and contexts that share an
    /// edge agree on that edge's alignment count.
    pub open spec fn spec_carryovers_agree(self, other: LineContext) -> bool {
        &&& (self.contig_index == other.contig_index
            ==> self.previous_contig_edge_count == other.previous_contig_edge_count)
        &&& (self.contig_index == other.contig_index && self.edge_index == other.edge_index
            ==> self.previous_edge_alignment_count == other.previous_edge_alignment_count)
    }

    pub fn directly_precedes(&self, other: &Self) -> (r: bool)
        requires
            self.wf(),
            other.wf(),
        ensures
            r == self.spec_directly_precedes(*other),
    {
        if self.contig_index != other.contig_index {
            if self.contig_index != other.contig_index - 1 {
                return false;
            }
            self.edge_index == other.previous_contig_edge_count - 1 && self.alignment_index
                == other.previous_edge_alignment_count - 1
        } else if self.edge_index != other.edge_index {
            if self.edge_index != other.edge_index - 1 {
                return false;
            }
            self.alignment_index == other.previous_edge_alignment_count - 1 || self.edge_index
                == -1
        } else if self.alignment_index != other.alignment_index {
            self.alignment_index == other.alignment_index - 1
        } else {
            false
        }
    }

    pub fn lt(&self, other: &Self) -> (r: bool)
        ensures
            r == self.spec_lt(*other),
    {
        if self.contig_index != other.contig_index {
            self.contig_index < other.contig_index
        } else if self.edge_index != other.edge_index {
            self.edge_index < other.edge_index
        } else {
            self.alignment_index < other.alignment_index
        }
    }

    pub fn carryovers_agree(&self, other: &Self) -> (r: bool)
        ensures
            r == self.spec_carryovers_agree(*other),
    {
        (self.contig_index != other.contig_index || self.previous_contig_edge_count
            == other.previous_contig_edge_count) && (self.contig_index != other.contig_index
            || self.edge_index != other.edge_index || self.previous_edge_alignment_count
            == other.previous_edge_alignment_count)
    }

    /// Whether the triple of indices is the same: equality as the reorder
    /// buffer sees it.
    pub fn same_position(&self, other: &Self) -> (r: bool)
        ensures
            r == (self.contig_index == other.contig_index && self.edge_index == other.edge_index
                && self.alignment_index == other.alignment_index),
    {
        self.contig_index == other.contig_index && self.edge_index == other.edge_index
            && self.alignment_index == other.alignment_index
    }
}

impl Default for LineContext {
    /// The context before the first record.
    fn default() -> (r: Self)
        ensures
            r == LineContext::initial(),
            r.wf(),
    {
        LineContext {
            contig_index: -1,
            edge_index: -1,
            alignment_index: -1,
            previous_contig_edge_count: 0,
            previous_edge_alignment_count: 0,
        }
    }
}

/// A record's direct successor comes strictly after it in the total order.
pub proof fn lemma_directly_precedes_lt(a: LineContext, b: LineContext)
    requires
        a.spec_directly_precedes(b),
    ensures
        a.spec_lt(b),
{
}

/// The TAB byte that separates layout columns.
pub const TAB: u8 = 9;

/// The newline byte that terminates every emitted record.
pub const NEWLINE: u8 = 10;

/// The `>` byte that opens a contig header.
pub const SIGIL_CONTIG: u8 = 62;

/// The `E` byte that opens an edge record.
pub const SIGIL_EDGE: u8 = 69;

/// The `S` byte that opens an alignment record.
pub const SIGIL_ALIGNMENT: u8 = 83;

/// The `+` byte: forward direction.
pub const PLUS: u8 = 43;

/// The `-` byte: reverse direction.
pub const MINUS: u8 = 45;

/// A decimal digit byte.
pub open spec fn is_digit(b: u8) -> bool {
    48 <= b <= 57
}

pub open spec fn all_digits(s: Seq<u8>) -> bool {
    forall|i: int| 0 <= i < s.len() ==> is_digit(#[trigger] s[i])
}

/// The number denoted by a sequence of decimal digit bytes.
pub open spec fn dec_value(s: Seq<u8>) -> int
    decreases s.len(),
{
    if s.len() == 0 {
        0
    } else {
        dec_value(s.drop_last()) * 10 + (s.last() - 48)
    }
}

/// The decimal digits of `n`, most significant first, no leading zeros.
pub open spec fn dec_digits(n: nat) -> Seq<u8>
    decreases n,
{
    if n < 10 {
        seq![(48 + n) as u8]
    } else {
        dec_digits(n / 10).push((48 + n % 10) as u8)
    }
}

proof fn lemma_all_digits_subrange(s: Seq<u8>, a: int, b: int)
    requires
        all_digits(s),
        0 <= a <= b <= s.len(),
    ensures
        all_digits(s.subrange(a, b)),
{
    assert forall|i: int| 0 <= i < b - a implies is_digit(#[trigger] s.subrange(a, b)[i]) by {
        assert(s.subrange(a, b)[i] == s[a + i]);
    }
}

proof fn lemma_dec_value_nonneg(s: Seq<u8>)
    requires
        all_digits(s),
    ensures
        dec_value(s) >= 0,
    decreases s.len(),
{
    if s.len() > 0 {
        lemma_all_digits_subrange(s, 0, s.len() - 1);
        lemma_dec_value_nonneg(s.drop_last());
    }
}

/// Extending a digit string to the right never shrinks its value.
proof fn lemma_dec_value_prefix_le(s: Seq<u8>, i: int)
    requires
        all_digits(s),
        0 <= i <= s.len(),
    ensures
        dec_value(s.subrange(0, i)) <= dec_value(s),
    decreases s.len() - i,
{
    if i == s.len() {
        assert(s.subrange(0, i) =~= s);
    } else {
        lemma_dec_value_prefix_le(s, i + 1);
        let t = s.subrange(0, i + 1);
        assert(t.drop_last() =~= s.subrange(0, i));
        lemma_all_digits_subrange(s, 0, i);
        lemma_dec_value_nonneg(s.subrange(0, i));
        assert(is_digit(s[i]));
        assert(t.last() == s[i]);
    }
}

/// Appends the decimal digits of `n` to `out`.
pub fn push_decimal(out: &mut Vec<u8>, n: u64)
    ensures
        final(out)@ == old(out)@ + dec_digits(n as nat),
    decreases n,
{
    if n >= 10 {
        push_decimal(out, n / 10);
    }
    let d: u8 = (n % 10) as u8 + 48;
    out.push(d);
    proof {
        assert(out@ =~= old(out)@ + dec_digits(n as nat));
    }
}

/// Parses an unsigned decimal number that fills `s` entirely.
pub fn parse_u64(s: &[u8]) -> (r: Option<u64>)
    ensures
        r is Some <==> s@.len() >= 1 && all_digits(s@) && dec_value(s@) <= u64::MAX,
        r matches Some(v) ==> v == dec_value(s@),
{
    let len = s.len();
    if len == 0 {
        return None;
    }
    let mut i: usize = 0;
    let mut v: u64 = 0;
    while i < len
        invariant
            len == s@.len(),
            i <= len,
            all_digits(s@.subrange(0, i as int)),
            v == dec_value(s@.subrange(0, i as int)),
        decreases len - i,
    {
        let b = s[i];
        if b < 48 || b > 57 {
            return None;
        }
        let d: u64 = (b - 48) as u64;
        if v > (u64::MAX - d) / 10 {
            proof {
                if all_digits(s@) && dec_value(s@) <= u64::MAX {
                    assert(s@.subrange(0, i as int + 1).drop_last() =~= s@.subrange(0, i as int));
                    assert(s@.subrange(0, i as int + 1).last() == s@[i as int]);
                    assert(dec_value(s@.subrange(0, i as int + 1)) > u64::MAX);
                    lemma_dec_value_prefix_le(s@, i as int + 1);
                }
            }
            return None;
        }
        v = v * 10 + d;
        proof {
            let t = s@.subrange(0, i as int + 1);
            assert(t.drop_last() =~= s@.subrange(0, i as int));
            assert(t.last() == s@[i as int]);
            assert(all_digits(t)) by {
                assert forall|k: int| 0 <= k < i + 1 implies is_digit(#[trigger] t[k]) by {
                    if k < i {
                        assert(t[k] == s@.subrange(0, i as int)[k]);
                    } else {
                        assert(t[k] == s@[i as int]);
                    }
                }
            }
        }
        i = i + 1;
    }
    proof {
        assert(s@.subrange(0, len as int) =~= s@);
    }
    Some(v)
}

/// Position of the first TAB at or after `i`, or the end of the line.
pub open spec fn col_end(s: Seq<u8>, i: int) -> int
    decreases s.len() - i,
{
    if i >= s.len() {
        s.len() as int
    } else if s[i] == TAB {
        i
    } else {
        col_end(s, i + 1)
    }
}

proof fn lemma_col_end_props(s: Seq<u8>, i: int)
    requires
        0 <= i <= s.len(),
    ensures
        i <= col_end(s, i) <= s.len(),
        col_end(s, i) < s.len() ==> s[col_end(s, i)] == TAB,
    decreases s.len() - i,
{
    if i < s.len() && s[i] != TAB {
        lemma_col_end_props(s, i + 1);
    }
}

fn find_col_end(s: &[u8], i: usize) -> (r: usize)
    requires
        i <= s@.len(),
    ensures
        r == col_end(s@, i as int),
        i <= r <= s@.len(),
{
    let len = s.len();
    let mut j: usize = i;
    while j < len && s[j] != TAB
        invariant
            len == s@.len(),
            i <= j <= len,
            col_end(s@, i as int) == col_end(s@, j as int),
        decreases len - j,
    {
        j = j + 1;
    }
    j
}

/// Why a line was rejected.
#[derive(Clone, Copy, PartialEq, Eq, Structural, Debug)]
pub enum ParseError {
    /// The line is empty or starts with an unknown sigil.
    UnknownLineKind,
    /// A required TAB-separated column is absent.
    MissingField,
    /// A numeric column is empty, non-numeric, or too large.
    InvalidNumber,
    /// A direction column is neither `+` nor `-`.
    InvalidDirection,
}

/// A non-empty all-digit column whose value fits in a u64.
pub open spec fn valid_u64_field(s: Seq<u8>, a: int, b: int) -> bool {
    &&& b - a >= 1
    &&& all_digits(s.subrange(a, b))
    &&& dec_value(s.subrange(a, b)) <= u64::MAX
}

/// A non-empty all-digit column whose value fits in a usize.
pub open spec fn valid_usize_field(s: Seq<u8>, a: int, b: int) -> bool {
    &&& b - a >= 1
    &&& all_digits(s.subrange(a, b))
    &&& dec_value(s.subrange(a, b)) <= usize::MAX
}

/// A one-byte column holding `+` or `-`.
pub open spec fn direction_col(s: Seq<u8>, a: int, b: int) -> bool {
    b - a == 1 && (s[a] == PLUS || s[a] == MINUS)
}

/// The grammar of a contig header: `>NAME`, then TAB-separated `nodes=<u64>`
/// and `len=<u64>`; anything after the `len=` column is ignored.
pub open spec fn spec_parse_contig(s: Seq<u8>) -> Result<LayLineView, ParseError> {
    let ne0 = col_end(s, 1);
    if ne0 >= s.len() {
        Err(ParseError::MissingField)
    } else {
        let ns = ne0 + 1;
        let ne = col_end(s, ns);
        if !(ns + 6 <= ne && s[ns] == 110u8 && s[ns + 1] == 111u8 && s[ns + 2] == 100u8 && s[ns + 3]
            == 101u8 && s[ns + 4] == 115u8 && s[ns + 5] == 61u8) {
            Err(ParseError::MissingField)
        } else if !valid_u64_field(s, ns + 6, ne) {
            Err(ParseError::InvalidNumber)
        } else if ne >= s.len() {
            Err(ParseError::MissingField)
        } else {
            let ls = ne + 1;
            let le = col_end(s, ls);
            if !(ls + 4 <= le && s[ls] == 108u8 && s[ls + 1] == 101u8 && s[ls + 2] == 110u8 && s[ls
                + 3] == 61u8) {
                Err(ParseError::MissingField)
            } else if !valid_u64_field(s, ls + 4, le) {
                Err(ParseError::InvalidNumber)
            } else {
                Ok(
                    LayLineView::Contig {
                        name: s.subrange(1, ne0),
                        node_count: dec_value(s.subrange(ns + 6, ne)) as u64,
                        length: dec_value(s.subrange(ls + 4, le)) as u64,
                    },
                )
            }
        }
    }
}

/// The grammar of an edge record:
/// `E<TAB><offset><TAB><from><TAB><+|-><TAB><to><TAB><+|->`;
/// trailing columns are ignored.
pub open spec fn spec_parse_edge(s: Seq<u8>) -> Result<LayLineView, ParseError> {
    if s.len() < 2 || s[1] != TAB {
        Err(ParseError::MissingField)
    } else {
        let oe = col_end(s, 2);
        if !valid_u64_field(s, 2, oe) {
            Err(ParseError::InvalidNumber)
        } else if oe >= s.len() {
            Err(ParseError::MissingField)
        } else {
            let fs = oe + 1;
            let fe = col_end(s, fs);
            if fe >= s.len() {
                Err(ParseError::MissingField)
            } else {
                let fds = fe + 1;
                let fde = col_end(s, fds);
                if !direction_col(s, fds, fde) {
                    Err(ParseError::InvalidDirection)
                } else if fde >= s.len() {
                    Err(ParseError::MissingField)
                } else {
                    let ts = fde + 1;
                    let te = col_end(s, ts);
                    if te >= s.len() {
                        Err(ParseError::MissingField)
                    } else {
                        let tds = te + 1;
                        let tde = col_end(s, tds);
                        if !direction_col(s, tds, tde) {
                            Err(ParseError::InvalidDirection)
                        } else {
                            Ok(
                                LayLineView::Edge {
                                    offset: dec_value(s.subrange(2, oe)) as u64,
                                    from_node: s.subrange(fs, fe),
                                    from_direction: s[fds] == PLUS,
                                    to_node: s.subrange(ts, te),
                                    to_direction: s[tds] == PLUS,
                                },
                            )
                        }
                    }
                }
            }
        }
    }
}

/// The grammar of an alignment record:
/// `S<TAB><read_id><TAB><+|-><TAB><offset><TAB><length>`; the sequence bytes
/// after the length column are ignored, and `original_length` starts out
/// equal to `length`.
pub open spec fn spec_parse_alignment(s: Seq<u8>) -> Result<LayLineView, ParseError> {
    if s.len() < 2 || s[1] != TAB {
        Err(ParseError::MissingField)
    } else {
        let re = col_end(s, 2);
        if re >= s.len() {
            Err(ParseError::MissingField)
        } else {
            let ds = re + 1;
            let de = col_end(s, ds);
            if !direction_col(s, ds, de) {
                Err(ParseError::InvalidDirection)
            } else if de >= s.len() {
                Err(ParseError::MissingField)
            } else {
                let os = de + 1;
                let oe = col_end(s, os);
                if !valid_usize_field(s, os, oe) {
                    Err(ParseError::InvalidNumber)
                } else if oe >= s.len() {
                    Err(ParseError::MissingField)
                } else {
                    let ls = oe + 1;
                    let le = col_end(s, ls);
                    if !valid_usize_field(s, ls, le) {
                        Err(ParseError::InvalidNumber)
                    } else {
                        Ok(
                            LayLineView::Alignment {
                                read_id: s.subrange(2, re),
                                direction: s[ds] == PLUS,
                                offset: dec_value(s.subrange(os, oe)) as usize,
                                length: dec_value(s.subrange(ls, le)) as usize,
                                original_length: dec_value(s.subrange(ls, le)) as usize,
                            },
                        )
                    }
                }
            }
        }
    }
}

/// The grammar of a layout line, keyed on the first byte: `>` contig,
/// `E` edge, `S` alignment.
pub open spec fn spec_parse_line(s: Seq<u8>) -> Result<LayLineView, ParseError> {
    if s.len() == 0 {
        Err(ParseError::UnknownLineKind)
    } else if s[0] == SIGIL_CONTIG {
        spec_parse_contig(s)
    } else if s[0] == SIGIL_EDGE {
        spec_parse_edge(s)
    } else if s[0] == SIGIL_ALIGNMENT {
        spec_parse_alignment(s)
    } else {
        Err(ParseError::UnknownLineKind)
    }
}

fn parse_u64_field(s: &[u8], a: usize, b: usize) -> (r: Option<u64>)
    requires
        a <= b <= s@.len(),
    ensures
        r is Some <==> valid_u64_field(s@, a as int, b as int),
        r matches Some(v) ==> v == dec_value(s@.subrange(a as int, b as int)),
{
    let col = slice_subrange(s, a, b);
    parse_u64(col)
}

fn parse_usize_field(s: &[u8], a: usize, b: usize) -> (r: Option<usize>)
    requires
        a <= b <= s@.len(),
    ensures
        r is Some <==> valid_usize_field(s@, a as int, b as int),
        r matches Some(v) ==> v == dec_value(s@.subrange(a as int, b as int)),
{
    let col = slice_subrange(s, a, b);
    match parse_u64(col) {
        Some(v) => {
            if v <= usize::MAX as u64 {
                Some(v as usize)
            } else {
                None
            }
        },
        None => {
            proof {
                if valid_usize_field(s@, a as int, b as int) {
                    assert(valid_u64_field(s@, a as int, b as int));
                }
            }
            None
        },
    }
}

fn parse_direction_field(s: &[u8], a: usize, b: usize) -> (r: Option<bool>)
    requires
        a <= b <= s@.len(),
    ensures
        r is Some <==> direction_col(s@, a as int, b as int),
        r matches Some(d) ==> d == (s@[a as int] == PLUS),
{
    if b - a == 1 {
        let c = s[a];
        if c == PLUS {
            Some(true)
        } else if c == MINUS {
            Some(false)
        } else {
            None
        }
    } else {
        None
    }
}

fn parse_contig(s: &[u8]) -> (r: Result<Wtdbg2CtgLayLine, ParseError>)
    requires
        s@.len() >= 1,
    ensures
        r matches Ok(l) ==> spec_parse_contig(s@) == Ok::<LayLineView, ParseError>(l@),
        r matches Err(e) ==> spec_parse_contig(s@) == Err::<LayLineView, ParseError>(e),
{
    let len = s.len();
    let ne0 = find_col_end(s, 1);
    if ne0 >= len {
        return Err(ParseError::MissingField);
    }
    let ns = ne0 + 1;
    let ne = find_col_end(s, ns);
    if ne - ns < 6 || s[ns] != 110u8 || s[ns + 1] != 111u8 || s[ns + 2] != 100u8 || s[ns + 3] != 101u8
        || s[ns + 4] != 115u8 || s[ns + 5] != 61u8 {
        return Err(ParseError::MissingField);
    }
    let node_count = match parse_u64_field(s, ns + 6, ne) {
        Some(v) => v,
        None => {
            return Err(ParseError::InvalidNumber);
        },
    };
    if ne >= len {
        return Err(ParseError::MissingField);
    }
    let ls = ne + 1;
    let le = find_col_end(s, ls);
    if le - ls < 4 || s[ls] != 108u8 || s[ls + 1] != 101u8 || s[ls + 2] != 110u8 || s[ls + 3] != 61u8
        {
        return Err(ParseError::MissingField);
    }
    let length = match parse_u64_field(s, ls + 4, le) {
        Some(v) => v,
        None => {
            return Err(ParseError::InvalidNumber);
        },
    };
    let name = slice_to_vec(slice_subrange(s, 1, ne0));
    Ok(Wtdbg2CtgLayLine::Contig { name, node_count, length })
}

fn parse_edge(s: &[u8]) -> (r: Result<Wtdbg2CtgLayLine, ParseError>)
    requires
        s@.len() >= 1,
    ensures
        r matches Ok(l) ==> spec_parse_edge(s@) == Ok::<LayLineView, ParseError>(l@),
        r matches Err(e) ==> spec_parse_edge(s@) == Err::<LayLineView, ParseError>(e),
{
    let len = s.len();
    if len < 2 || s[1] != TAB {
        return Err(ParseError::MissingField);
    }
    let oe = find_col_end(s, 2);
    let offset = match parse_u64_field(s, 2, oe) {
        Some(v) => v,
        None => {
            return Err(ParseError::InvalidNumber);
        },
    };
    if oe >= len {
        return Err(ParseError::MissingField);
    }
    let fs = oe + 1;
    let fe = find_col_end(s, fs);
    if fe >= len {
        return Err(ParseError::MissingField);
    }
    let fds = fe + 1;
    let fde = find_col_end(s, fds);
    let from_direction = match parse_direction_field(s, fds, fde) {
        Some(d) => d,
        None => {
            return Err(ParseError::InvalidDirection);
        },
    };
    if fde >= len {
        return Err(ParseError::MissingField);
    }
    let ts = fde + 1;
    let te = find_col_end(s, ts);
    if te >= len {
        return Err(ParseError::MissingField);
    }
    let tds = te + 1;
    let tde = find_col_end(s, tds);
    let to_direction = match parse_direction_field(s, tds, tde) {
        Some(d) => d,
        None => {
            return Err(ParseError::InvalidDirection);
        },
    };
    let from_node = slice_to_vec(slice_subrange(s, fs, fe));
    let to_node = slice_to_vec(slice_subrange(s, ts, te));
    Ok(Wtdbg2CtgLayLine::Edge { offset, from_node, from_direction, to_node, to_direction })
}

fn parse_alignment(s: &[u8]) -> (r: Result<Wtdbg2CtgLayLine, ParseError>)
    requires
        s@.len() >= 1,
    ensures
        r matches Ok(l) ==> spec_parse_alignment(s@) == Ok::<LayLineView, ParseError>(l@),
        r matches Err(e) ==> spec_parse_alignment(s@) == Err::<LayLineView, ParseError>(e),
{
    let len = s.len();
    if len < 2 || s[1] != TAB {
        return Err(ParseError::MissingField);
    }
    let re = find_col_end(s, 2);
    if re >= len {
        return Err(ParseError::MissingField);
    }
    let ds = re + 1;
    let de = find_col_end(s, ds);
    let direction = match parse_direction_field(s, ds, de) {
        Some(d) => d,
        None => {
            return Err(ParseError::InvalidDirection);
        },
    };
    if de >= len {
        return Err(ParseError::MissingField);
    }
    let os = de + 1;
    let oe = find_col_end(s, os);
    let offset = match parse_usize_field(s, os, oe) {
        Some(v) => v,
        None => {
            return Err(ParseError::InvalidNumber);
        },
    };
    if oe >= len {
        return Err(ParseError::MissingField);
    }
    let ls = oe + 1;
    let le = find_col_end(s, ls);
    let length = match parse_usize_field(s, ls, le) {
        Some(v) => v,
        None => {
            return Err(ParseError::InvalidNumber);
        },
    };
    let read_id = slice_to_vec(slice_subrange(s, 2, re));
    Ok(
        Wtdbg2CtgLayLine::Alignment {
            read_id,
            direction,
            offset,
            length,
            original_length: length,
        },
    )
}

/// Parses one layout line; the result is exactly what the grammar
/// `spec_parse_line` assigns to the bytes.
pub fn parse_line(s: &[u8]) -> (r: Result<Wtdbg2CtgLayLine, ParseError>)
    ensures
        r matches Ok(l) ==> spec_parse_line(s@) == Ok::<LayLineView, ParseError>(l@),
        r matches Err(e) ==> spec_parse_line(s@) == Err::<LayLineView, ParseError>(e),
{
    let len = s.len();
    if len == 0 {
        return Err(ParseError::UnknownLineKind);
    }
    let first = s[0];
    if first == SIGIL_CONTIG {
        parse_contig(s)
    } else if first == SIGIL_EDGE {
        parse_edge(s)
    } else if first == SIGIL_ALIGNMENT {
        parse_alignment(s)
    } else {
        Err(ParseError::UnknownLineKind)
    }
}

/// The byte that prints a direction: `+` for forwards, `-` for backwards.
pub open spec fn direction_byte(d: bool) -> u8 {
    if d {
        PLUS
    } else {
        MINUS
    }
}

/// The serialized form of a layout record. Contig headers are TAB-separated
/// `>NAME`, `nodes=`, `len=`; alignment lines end with a trailing TAB so
/// that sequence bytes can be appended without a further separator.
pub open spec fn spec_format_line(v: LayLineView) -> Seq<u8> {
    match v {
        LayLineView::Contig { name, node_count, length } => seq![SIGIL_CONTIG] + name + seq![
            TAB,
            110u8,
            111u8,
            100u8,
            101u8,
            115u8,
            61u8,
        ] + dec_digits(node_count as nat) + seq![TAB, 108u8, 101u8, 110u8, 61u8] + dec_digits(
            length as nat,
        ),
        LayLineView::Edge { offset, from_node, from_direction, to_node, to_direction } => seq![
            SIGIL_EDGE,
            TAB,
        ] + dec_digits(offset as nat) + seq![TAB] + from_node + seq![
            TAB,
            direction_byte(from_direction),
            TAB,
        ] + to_node + seq![TAB, direction_byte(to_direction)],
        LayLineView::Alignment { read_id, direction, offset, length, original_length } => seq![
            SIGIL_ALIGNMENT,
            TAB,
        ] + read_id + seq![TAB, direction_byte(direction), TAB] + dec_digits(offset as nat)
            + seq![TAB] + dec_digits(length as nat) + seq![TAB],
    }
}

/// Appends all of `src` to `out`.
pub fn push_bytes(out: &mut Vec<u8>, src: &[u8])
    ensures
        final(out)@ == old(out)@ + src@,
{
    proof {
        assert(out@ =~= old(out)@ + src@.subrange(0, 0));
    }
    let len = src.len();
    let mut i: usize = 0;
    while i < len
        invariant
            len == src@.len(),
            i <= len,
            out@ == old(out)@ + src@.subrange(0, i as int),
        decreases len - i,
    {
        out.push(src[i]);
        proof {
            assert(out@ =~= old(out)@ + src@.subrange(0, i as int + 1));
        }
        i = i + 1;
    }
    proof {
        assert(src@.subrange(0, len as int) =~= src@);
    }
}

/// Serializes a layout record as `spec_format_line` describes.
pub fn format_line(line: &Wtdbg2CtgLayLine) -> (r: Vec<u8>)
    ensures
        r@ == spec_format_line(line@),
{
    let mut out: Vec<u8> = Vec::new();
    match line {
        Wtdbg2CtgLayLine::Contig { name, node_count, length } => {
            out.push(SIGIL_CONTIG);
            push_bytes(&mut out, name.as_slice());
            out.push(TAB);
            out.push(110);
            out.push(111);
            out.push(100);
            out.push(101);
            out.push(115);
            out.push(61);
            push_decimal(&mut out, *node_count);
            out.push(TAB);
            out.push(108);
            out.push(101);
            out.push(110);
            out.push(61);
            push_decimal(&mut out, *length);
            proof {
                assert(out@ =~= spec_format_line(line@));
            }
        },
        Wtdbg2CtgLayLine::Edge { offset, from_node, from_direction, to_node, to_direction } => {
            out.push(SIGIL_EDGE);
            out.push(TAB);
            push_decimal(&mut out, *offset);
            out.push(TAB);
            push_bytes(&mut out, from_node.as_slice());
            out.push(TAB);
            out.push(if *from_direction { PLUS } else { MINUS });
            out.push(TAB);
            push_bytes(&mut out, to_node.as_slice());
            out.push(TAB);
            out.push(if *to_direction { PLUS } else { MINUS });
            proof {
                assert(out@ =~= spec_format_line(line@));
            }
        },
        Wtdbg2CtgLayLine::Alignment { read_id, direction, offset, length, original_length } => {
            out.push(SIGIL_ALIGNMENT);
            out.push(TAB);
            push_bytes(&mut out, read_id.as_slice());
            out.push(TAB);
            out.push(if *direction { PLUS } else { MINUS });
            out.push(TAB);
            push_decimal(&mut out, *offset as u64);
            out.push(TAB);
            push_decimal(&mut out, *length as u64);
            out.push(TAB);
            proof {
                assert(out@ =~= spec_format_line(line@));
            }
        },
    }
    out
}

} // verus!
