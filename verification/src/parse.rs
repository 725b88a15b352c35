//! The per-kind annotation grammars.
//!
//! Dispatch is on the node's kind tag, case-sensitively.  Each recognized
//! kind has a grammar over the node's `extra_info` text; the grammar of
//! each kind is pinned down by a spec function over `Seq<char>`, and the
//! executable parsers return exactly what those spec functions describe.

use crate::model::{
    scan_wf, AttrView, Attribute, CondView, Condition, ErrView, GrammarError, Join, JoinType,
    JoinView, Op, OpView, Project, ProjectView, Scan, ScanView,
};
use crate::text::{
    char_len, drop_blank, drop_blank_vec, find_marker, find_marker_str, has_marker_at,
    lemma_find_marker, lemma_marker_split_found, lemma_marker_split_len, lemma_marker_split_none,
    lemma_split_all_len, marker_split, split_all, split_str, str_eq, trim_of, trim_str,
};
use vstd::prelude::*;

verus! {

/// The literal marker that separates the two parts of a `SEQ_SCAN`
/// annotation.
pub open spec fn info_separator() -> Seq<char> {
    "[INFOSEPARATOR]"@
}

/// An attribute reference as it appears on one side of a join predicate:
/// `table.attr`, or a bare token that stands in for both names until a
/// later pass resolves the real table.
pub open spec fn join_side_attr(tok: Seq<char>) -> AttrView {
    let comps = split_all(tok, '.');
    if comps.len() == 1 {
        AttrView { table_name: trim_of(comps[0]), attr_name: trim_of(comps[0]) }
    } else {
        AttrView { table_name: trim_of(comps[0]), attr_name: trim_of(comps[1]) }
    }
}

/// A projection column: `table.attr`, or a bare column name whose table
/// is left as the empty-string placeholder.
pub open spec fn proj_col_attr(line: Seq<char>) -> AttrView {
    let comps = split_all(line, '.');
    if comps.len() == 1 {
        AttrView { table_name: Seq::empty(), attr_name: trim_of(comps[0]) }
    } else {
        AttrView { table_name: trim_of(comps[0]), attr_name: trim_of(comps[1]) }
    }
}

/// One `HASH_JOIN` predicate line `L=R`, split once on `=`; `None` when
/// the line carries no `=` at all.
pub open spec fn spec_parse_condition(line: Seq<char>) -> Option<CondView> {
    let sides = split_all(line, '=');
    if sides.len() < 2 {
        None
    } else {
        Some(
            CondView {
                left_attr: join_side_attr(trim_of(sides[0])),
                right_attr: join_side_attr(trim_of(sides[1])),
            },
        )
    }
}

/// The predicate lines `lines[i..]` of a `HASH_JOIN` annotation, in file
/// order; the first malformed line aborts with its error.
pub open spec fn spec_parse_conditions(lines: Seq<Seq<char>>, i: int) -> Result<
    Seq<CondView>,
    ErrView,
>
    decreases lines.len() - i,
{
    if i < 0 || i >= lines.len() {
        Ok(Seq::empty())
    } else {
        match spec_parse_condition(lines[i]) {
            None => Err(ErrView::MissingEquality { predicate: lines[i] }),
            Some(c) => match spec_parse_conditions(lines, i + 1) {
                Ok(rest) => Ok(seq![c] + rest),
                Err(e) => Err(e),
            },
        }
    }
}

/// The `HASH_JOIN` grammar: line 0 is the join-type tag (`INNER` is a
/// join, `MARK` leaves the node untouched), the remaining non-blank lines
/// are equality predicates.
pub open spec fn spec_parse_hash_join(info: Seq<char>) -> Result<Option<OpView>, ErrView> {
    let lines = drop_blank(split_all(info, '\n'));
    if lines.len() == 0 {
        Err(ErrView::MissingJoinType)
    } else if lines[0] == "INNER"@ {
        match spec_parse_conditions(lines, 1) {
            Ok(cs) => Ok(
                Some(OpView::Join(JoinView { join_type: JoinType::Inner, equalizers: cs })),
            ),
            Err(e) => Err(e),
        }
    } else if lines[0] == "MARK"@ {
        Ok(None)
    } else {
        Err(ErrView::UnknownJoinType { tag: lines[0] })
    }
}

/// The `SEQ_SCAN` grammar: the text splits on `[INFOSEPARATOR]` into
/// exactly two parts; part 0, trimmed, names the table, and each
/// non-blank line of part 1, trimmed, names one scanned column.  Every
/// attribute is qualified with the scan's own table name by construction.
pub open spec fn spec_parse_seq_scan(info: Seq<char>) -> Result<ScanView, ErrView> {
    let parts = marker_split(info, info_separator());
    if parts.len() != 2 {
        Err(ErrView::BadScanInfo { info })
    } else {
        let table = trim_of(parts[0]);
        let cols = drop_blank(split_all(parts[1], '\n'));
        Ok(
            ScanView {
                table_name: table,
                attributes: Seq::new(
                    cols.len(),
                    |i: int| AttrView { table_name: table, attr_name: trim_of(cols[i]) },
                ),
            },
        )
    }
}

/// A parsed scan is well-formed: every attribute it reads is qualified
/// with the scan's own table name, whether or not the text itself was
/// qualified.
pub proof fn lemma_parsed_scan_qualified(info: Seq<char>)
    requires
        spec_parse_seq_scan(info) is Ok,
    ensures
        scan_wf(spec_parse_seq_scan(info)->Ok_0),
{
}

/// The `PROJECTION` grammar: each non-blank line is one output column.
/// It has no failure case.
pub open spec fn spec_parse_projection(info: Seq<char>) -> ProjectView {
    let cols = drop_blank(split_all(info, '\n'));
    ProjectView { columns: Seq::new(cols.len(), |i: int| proj_col_attr(cols[i])) }
}

/// What enrichment decides for a node of kind `name` carrying annotation
/// `info`: `Ok(Some(op))` writes `op` onto the node, `Ok(None)` leaves
/// the node untouched, and `Err` aborts the whole pass.
pub open spec fn spec_parse_op(name: Seq<char>, info: Seq<char>) -> Result<
    Option<OpView>,
    ErrView,
> {
    if name == "HASH_JOIN"@ {
        spec_parse_hash_join(info)
    } else if name == "SEQ_SCAN"@ {
        match spec_parse_seq_scan(info) {
            Ok(s) => Ok(Some(OpView::Scan(s))),
            Err(e) => Err(e),
        }
    } else if name == "PROJECTION"@ {
        Ok(Some(OpView::Project(spec_parse_projection(info))))
    } else if name == "CHUNK_SCAN"@ || name == "RESULT_COLLECTOR"@ || name == "SIMPLE_AGGREGATE"@
        || name == "Query"@ {
        Ok(None)
    } else if name == "FILTER"@ {
        Ok(Some(OpView::Filter))
    } else {
        Err(ErrView::UnknownNodeKind { kind: name })
    }
}

/// Whether the executable decision `r` is exactly the spec decision `s`.
pub open spec fn op_result_matches(
    r: Result<Option<Op>, GrammarError>,
    s: Result<Option<OpView>, ErrView>,
) -> bool {
    match (r, s) {
        (Ok(Some(op)), Ok(Some(ov))) => op@ == ov,
        (Ok(None), Ok(None)) => true,
        (Err(e), Err(ev)) => e@ == ev,
        _ => false,
    }
}

/// Parse one side of a join predicate (already trimmed) into an
/// attribute.
fn parse_join_side(tok: &str) -> (r: Attribute)
    ensures
        r@ == join_side_attr(tok@),
{
    let comps = split_str(tok, '.');
    proof {
        lemma_split_all_len(tok@, '.');
        assert(comps.deep_view()[0] == comps@[0]@);
    }
    if comps.len() == 1 {
        let t = trim_str(comps[0].as_str());
        let a = trim_str(comps[0].as_str());
        Attribute { table_name: t, attr_name: a }
    } else {
        proof {
            assert(comps.deep_view()[1] == comps@[1]@);
        }
        let t = trim_str(comps[0].as_str());
        let a = trim_str(comps[1].as_str());
        Attribute { table_name: t, attr_name: a }
    }
}

/// Parse one projection column line into an attribute; an unqualified
/// column keeps the empty-string table placeholder.
fn parse_proj_col(line: &str) -> (r: Attribute)
    ensures
        r@ == proj_col_attr(line@),
{
    let comps = split_str(line, '.');
    proof {
        lemma_split_all_len(line@, '.');
        assert(comps.deep_view()[0] == comps@[0]@);
    }
    if comps.len() == 1 {
        let a = trim_str(comps[0].as_str());
        Attribute { table_name: String::new(), attr_name: a }
    } else {
        proof {
            assert(comps.deep_view()[1] == comps@[1]@);
        }
        let t = trim_str(comps[0].as_str());
        let a = trim_str(comps[1].as_str());
        Attribute { table_name: t, attr_name: a }
    }
}

/// Parse one `HASH_JOIN` predicate line.
fn parse_condition(line: &str) -> (r: Option<Condition>)
    ensures
        r is Some <==> spec_parse_condition(line@) is Some,
        r matches Some(c) ==> spec_parse_condition(line@) matches Some(cv) && c@ == cv,
{
    let sides = split_str(line, '=');
    proof {
        lemma_split_all_len(line@, '=');
        assert(sides.deep_view()[0] == sides@[0]@);
    }
    if sides.len() < 2 {
        None
    } else {
        proof {
            assert(sides.deep_view()[1] == sides@[1]@);
        }
        let l = trim_str(sides[0].as_str());
        let r = trim_str(sides[1].as_str());
        let left_attr = parse_join_side(l.as_str());
        let right_attr = parse_join_side(r.as_str());
        Some(Condition { left_attr, right_attr })
    }
}

/// All predicate lines from `i` on parse; `spec_parse_conditions` is then
/// their sequence.
proof fn lemma_conditions_ok(lines: Seq<Seq<char>>, i: int)
    requires
        0 <= i <= lines.len(),
        forall|j: int| i <= j < lines.len() ==> spec_parse_condition(#[trigger] lines[j]) is Some,
    ensures
        spec_parse_conditions(lines, i) is Ok,
        spec_parse_conditions(lines, i)->Ok_0.len() == lines.len() - i,
        forall|k: int|
            0 <= k < lines.len() - i ==> spec_parse_conditions(lines, i)->Ok_0[k]
                == spec_parse_condition(#[trigger] lines[i + k])->Some_0,
    decreases lines.len() - i,
{
    if i < lines.len() {
        lemma_conditions_ok(lines, i + 1);
        let rest = spec_parse_conditions(lines, i + 1)->Ok_0;
        assert forall|k: int|
            0 <= k < lines.len() - i implies spec_parse_conditions(lines, i)->Ok_0[k]
            == spec_parse_condition(#[trigger] lines[i + k])->Some_0 by {
            if k > 0 {
                assert(rest[k - 1] == spec_parse_condition(lines[(i + 1) + (k - 1)])->Some_0);
                assert(lines[(i + 1) + (k - 1)] == lines[i + k]);
            }
        }
    }
}

/// The first malformed predicate line is the error that
/// `spec_parse_conditions` reports.
proof fn lemma_conditions_err(lines: Seq<Seq<char>>, i: int, j: int)
    requires
        0 <= i <= j < lines.len(),
        forall|k: int| i <= k < j ==> spec_parse_condition(#[trigger] lines[k]) is Some,
        spec_parse_condition(lines[j]) is None,
    ensures
        spec_parse_conditions(lines, i) == Err::<Seq<CondView>, ErrView>(
            ErrView::MissingEquality { predicate: lines[j] },
        ),
    decreases j - i,
{
    if i < j {
        lemma_conditions_err(lines, i + 1, j);
    }
}

/// Parse a `HASH_JOIN` annotation.
fn parse_hash_join(info: &str) -> (r: Result<Option<Op>, GrammarError>)
    ensures
        op_result_matches(r, spec_parse_hash_join(info@)),
{
    let lines = drop_blank_vec(split_str(info, '\n'));
    let ghost lv = lines.deep_view();
    if lines.len() == 0 {
        return Err(GrammarError::MissingJoinType);
    }
    proof {
        assert(lv[0] == lines@[0]@);
    }
    if str_eq(lines[0].as_str(), "INNER") {
        let mut eqs: Vec<Condition> = Vec::new();
        let mut k: usize = 1;
        while k < lines.len()
            invariant
                lv == lines.deep_view(),
                lv == drop_blank(split_all(info@, '\n')),
                lv[0] == "INNER"@,
                lv.len() == lines@.len(),
                1 <= k <= lines@.len(),
                forall|j: int| 1 <= j < k ==> spec_parse_condition(#[trigger] lv[j]) is Some,
                eqs@.len() == k - 1,
                forall|j: int|
                    0 <= j < k - 1 ==> #[trigger] eqs@[j]@ == spec_parse_condition(
                        lv[j + 1],
                    )->Some_0,
            decreases lines@.len() - k,
        {
            proof {
                assert(lv[k as int] == lines@[k as int]@);
            }
            match parse_condition(lines[k].as_str()) {
                Some(c) => {
                    eqs.push(c);
                },
                None => {
                    proof {
                        lemma_conditions_err(lv, 1, k as int);
                    }
                    let predicate = lines[k].as_str().to_owned();
                    return Err(GrammarError::MissingEquality { predicate });
                },
            }
            k += 1;
        }
        proof {
            lemma_conditions_ok(lv, 1);
            let cs = spec_parse_conditions(lv, 1)->Ok_0;
            let j = Join { join_type: JoinType::Inner, equalizers: eqs };
            assert forall|t: int| 0 <= t < eqs.len() implies j@.equalizers[t] == cs[t] by {
                assert(j@.equalizers[t] == eqs@[t]@);
                assert(eqs@[t]@ == spec_parse_condition(lv[t + 1])->Some_0);
                assert(cs[t] == spec_parse_condition(lv[1 + t])->Some_0);
            }
            assert(j@.equalizers =~= cs);
        }
        Ok(Some(Op::Join(Join { join_type: JoinType::Inner, equalizers: eqs })))
    } else if str_eq(lines[0].as_str(), "MARK") {
        Ok(None)
    } else {
        let tag = lines[0].as_str().to_owned();
        Err(GrammarError::UnknownJoinType { tag })
    }
}

/// Parse a `SEQ_SCAN` annotation.
fn parse_seq_scan(info: &str) -> (r: Result<Scan, GrammarError>)
    ensures
        r is Ok <==> spec_parse_seq_scan(info@) is Ok,
        r matches Ok(s) ==> s@ == spec_parse_seq_scan(info@)->Ok_0,
        r matches Err(e) ==> e@ == spec_parse_seq_scan(info@)->Err_0,
{
    let n = char_len(info);
    let marker = "[INFOSEPARATOR]";
    proof {
        reveal_strlit("[INFOSEPARATOR]");
        assert(marker@ == info_separator());
        assert(marker@.len() == 15);
    }
    let i = find_marker_str(info, marker);
    if i == n {
        proof {
            lemma_marker_split_none(info@, marker@);
        }
        let owned = info.to_owned();
        return Err(GrammarError::BadScanInfo { info: owned });
    }
    let ml = marker.unicode_len();
    proof {
        lemma_find_marker(info@, marker@);
        lemma_marker_split_found(info@, marker@);
    }
    let part0 = info.substring_char(0, i);
    let rest = info.substring_char(i + ml, n);
    let j = find_marker_str(rest, marker);
    proof {
        assert(rest@ =~= info@.subrange(i + marker@.len() as int, n as int));
    }
    if j < rest.unicode_len() {
        proof {
            lemma_marker_split_found(rest@, marker@);
            lemma_marker_split_len(
                rest@.subrange(j + marker@.len() as int, rest@.len() as int),
                marker@,
            );
        }
        let owned = info.to_owned();
        return Err(GrammarError::BadScanInfo { info: owned });
    }
    proof {
        lemma_marker_split_none(rest@, marker@);
        assert(marker_split(info@, marker@) =~= seq![part0@, rest@]);
    }
    let table = trim_str(part0);
    let lines = drop_blank_vec(split_str(rest, '\n'));
    let ghost cols = lines.deep_view();
    let mut attributes: Vec<Attribute> = Vec::new();
    let mut k: usize = 0;
    while k < lines.len()
        invariant
            cols == lines.deep_view(),
            cols.len() == lines@.len(),
            table@ == trim_of(part0@),
            0 <= k <= lines@.len(),
            attributes@.len() == k,
            forall|j: int|
                0 <= j < k ==> #[trigger] attributes@[j]@ == (AttrView {
                    table_name: table@,
                    attr_name: trim_of(cols[j]),
                }),
        decreases lines@.len() - k,
    {
        proof {
            assert(cols[k as int] == lines@[k as int]@);
        }
        let attr_name = trim_str(lines[k].as_str());
        let table_name = table.clone();
        attributes.push(Attribute { table_name, attr_name });
        k += 1;
    }
    let scan = Scan { table_name: table, attributes };
    proof {
        let sv = spec_parse_seq_scan(info@)->Ok_0;
        assert forall|t: int| 0 <= t < scan.attributes.len() implies scan@.attributes[t]
            == sv.attributes[t] by {
            assert(scan@.attributes[t] == scan.attributes[t]@);
        }
        assert(scan@.attributes =~= sv.attributes);
    }
    Ok(scan)
}

/// Parse a `PROJECTION` annotation.
fn parse_projection(info: &str) -> (r: Project)
    ensures
        r@ == spec_parse_projection(info@),
{
    let lines = drop_blank_vec(split_str(info, '\n'));
    let ghost cols = lines.deep_view();
    let mut columns: Vec<Attribute> = Vec::new();
    let mut k: usize = 0;
    while k < lines.len()
        invariant
            cols == lines.deep_view(),
            cols.len() == lines@.len(),
            0 <= k <= lines@.len(),
            columns@.len() == k,
            forall|j: int| 0 <= j < k ==> #[trigger] columns@[j]@ == proj_col_attr(cols[j]),
        decreases lines@.len() - k,
    {
        proof {
            assert(cols[k as int] == lines@[k as int]@);
        }
        let col = parse_proj_col(lines[k].as_str());
        columns.push(col);
        k += 1;
    }
    let p = Project { columns };
    proof {
        let pv = spec_parse_projection(info@);
        assert forall|t: int| 0 <= t < p.columns.len() implies p@.columns[t] == pv.columns[t] by {
            assert(p@.columns[t] == p.columns[t]@);
        }
        assert(p@.columns =~= pv.columns);
    }
    p
}

/// Decide what enrichment does to a node of kind `name` with annotation
/// `info`: write the returned operator, leave the node untouched, or
/// abort the pass with a grammar error.
pub fn parse_operator(name: &str, info: &str) -> (r: Result<Option<Op>, GrammarError>)
    ensures
        op_result_matches(r, spec_parse_op(name@, info@)),
{
    if str_eq(name, "HASH_JOIN") {
        parse_hash_join(info)
    } else if str_eq(name, "SEQ_SCAN") {
        match parse_seq_scan(info) {
            Ok(s) => Ok(Some(Op::Scan(s))),
            Err(e) => Err(e),
        }
    } else if str_eq(name, "PROJECTION") {
        Ok(Some(Op::Project(parse_projection(info))))
    } else if str_eq(name, "CHUNK_SCAN") || str_eq(name, "RESULT_COLLECTOR") || str_eq(
        name,
        "SIMPLE_AGGREGATE",
    ) || str_eq(name, "Query") {
        Ok(None)
    } else if str_eq(name, "FILTER") {
        Ok(Some(Op::Filter))
    } else {
        let kind = name.to_owned();
        Err(GrammarError::UnknownNodeKind { kind })
    }
}

} // verus!
