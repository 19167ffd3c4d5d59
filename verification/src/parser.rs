//! The listing parser: columns are sliced at the offsets where each header
//! token first occurs in the header line, one record per data line. Also
//! the terminal-escape sanitizer shared with the stream aggregator.

use vstd::prelude::*;

use crate::container::{
    decode_port_clause_spec, decode_status_spec, Container, ContainerStatus, ContainerView,
    PortMapping, PortMappingView,
};
use crate::error::{ComposeError, ErrorView};
use crate::text::{
    chars_to_string, find_char, find_char_vec, find_seq, find_seq_vec, is_digit_char,
    lemma_char_vec_deep_view, lemma_find_char_at, split_seq_spec, split_seq_vec, str_chars,
    subvec, trim_pair, trim_pair_vec, trim_spaces, trim_spaces_vec, vec_eq_str, ws_tokens,
    ws_tokens_vec,
};

verus! {

/// One trailing carriage return removed (the `\r` of a `\r\n` ending).
pub open spec fn strip_cr(line: Seq<char>) -> Seq<char> {
    if line.len() > 0 && line.last() == '\r' {
        line.drop_last()
    } else {
        line
    }
}

/// The lines of `s`: split at `\n`, each line stripped of a trailing `\r`,
/// with no empty final line for text that ends in a newline.
pub open spec fn lines_spec(s: Seq<char>) -> Seq<Seq<char>>
    decreases s.len(),
    via lines_spec_dec
{
    if s.len() == 0 {
        Seq::empty()
    } else {
        match find_char(s, '\n') {
            Some(i) => seq![strip_cr(s.take(i))] + lines_spec(s.skip(i + 1)),
            None => seq![s],
        }
    }
}

#[via_fn]
proof fn lines_spec_dec(s: Seq<char>) {
    lemma_find_char_at(s, '\n', 0);
}

pub fn split_lines_vec(s: &Vec<char>) -> (r: Vec<Vec<char>>)
    ensures
        r.deep_view() == lines_spec(s@),
    decreases s@.len(),
{
    let n = s.len();
    if n == 0 {
        let r: Vec<Vec<char>> = Vec::new();
        proof {
            assert(r.deep_view() =~= lines_spec(s@));
        }
        return r;
    }
    match find_char_vec(s, '\n') {
        Some(i) => {
            let line = if i > 0 && s[i - 1] == '\r' {
                subvec(s, 0, i - 1)
            } else {
                subvec(s, 0, i)
            };
            let tail = subvec(s, i + 1, n);
            proof {
                assert(tail@ =~= s@.skip(i + 1));
                if i > 0 {
                    assert(s@.take(i as int).last() == s@[i - 1]);
                    assert(s@.take(i as int).drop_last() =~= s@.subrange(0, i - 1));
                }
                assert(line@ =~= strip_cr(s@.take(i as int)));
            }
            let r0 = split_lines_vec(&tail);
            let mut r = r0;
            proof {
                lemma_char_vec_deep_view(&line);
            }
            r.insert(0, line);
            proof {
                assert(r.deep_view() =~= seq![strip_cr(s@.take(i as int))] + lines_spec(
                    s@.skip(i + 1),
                ));
            }
            r
        },
        None => {
            let whole = subvec(s, 0, n);
            let mut r: Vec<Vec<char>> = Vec::new();
            proof {
                lemma_char_vec_deep_view(&whole);
            }
            r.push(whole);
            proof {
                assert(s@.subrange(0, n as int) =~= s@);
                assert(r.deep_view() =~= seq![s@]);
            }
            r
        },
    }
}

/// Where a header token's column starts: the index of the token's first
/// occurrence in the header line (a token always occurs in its own line,
/// so the fallback of zero is never reached).
pub open spec fn header_pos(header: Seq<char>, tok: Seq<char>) -> int {
    match find_seq(header, tok) {
        Some(i) => i,
        None => 0,
    }
}

/// The header's column table: each whitespace-delimited token with the
/// start offset of its column.
pub open spec fn header_entries(header: Seq<char>) -> Seq<(Seq<char>, int)> {
    ws_tokens(header).map_values(|t: Seq<char>| (t, header_pos(header, t)))
}

/// Spec view of the executable column table.
pub open spec fn entries_view(v: Seq<(Vec<char>, usize)>) -> Seq<(Seq<char>, int)> {
    v.map_values(|p: (Vec<char>, usize)| (p.0@, p.1 as int))
}

fn header_entries_vec(hdr: &Vec<char>) -> (r: Vec<(Vec<char>, usize)>)
    ensures
        entries_view(r@) == header_entries(hdr@),
{
    let toks = ws_tokens_vec(hdr);
    let mut r: Vec<(Vec<char>, usize)> = Vec::new();
    let mut i: usize = 0;
    proof {
        assert(entries_view(r@) =~= header_entries(hdr@).take(0));
    }
    while i < toks.len()
        invariant
            0 <= i <= toks@.len(),
            toks.deep_view() == ws_tokens(hdr@),
            toks@.len() == ws_tokens(hdr@).len(),
            r@.len() == i,
            entries_view(r@) =~= header_entries(hdr@).take(i as int),
        decreases toks@.len() - i,
    {
        let tok = subvec(&toks[i], 0, toks[i].len());
        proof {
            lemma_char_vec_deep_view(&toks[i as int]);
            assert(tok@ =~= toks@[i as int]@);
            assert(tok@ == ws_tokens(hdr@)[i as int]);
        }
        let idx: usize = if tok.len() == 0 {
            0
        } else {
            match find_seq_vec(hdr, &tok) {
                Some(j) => j,
                None => 0,
            }
        };
        proof {
            assert(idx as int == header_pos(hdr@, tok@));
        }
        let ghost old_r = r@;
        let ghost tok_v = tok@;
        r.push((tok, idx));
        proof {
            let he = header_entries(hdr@);
            assert(he[i as int] == (ws_tokens(hdr@)[i as int], header_pos(
                hdr@,
                ws_tokens(hdr@)[i as int],
            )));
            assert(old_r.len() == i as int);
            assert forall|k: int| 0 <= k < i + 1 implies entries_view(r@)[k] == he.take(i + 1)[k]
                by {
                assert(entries_view(r@)[k] == (r@[k].0@, r@[k].1 as int));
                if k < i {
                    assert(r@[k] == old_r[k]);
                    assert(entries_view(old_r)[k] == (old_r[k].0@, old_r[k].1 as int));
                    assert(entries_view(old_r)[k] == he.take(i as int)[k]);
                } else {
                    assert(r@[k].0@ == tok_v && r@[k].1 == idx);
                }
            }
            assert(entries_view(r@) =~= header_entries(hdr@).take(i + 1));
        }
        i += 1;
    }
    proof {
        assert(header_entries(hdr@).take(toks@.len() as int) =~= header_entries(hdr@));
    }
    r
}

/// The header's column table, as token text and start offset pairs.
pub fn find_header_indices(header_line: &str) -> (r: Vec<(String, usize)>)
    ensures
        r@.len() == header_entries(header_line@).len(),
        forall|i: int|
            0 <= i < r@.len() ==> r@[i].0@ == header_entries(header_line@)[i].0 && r@[i].1
                as int == header_entries(header_line@)[i].1,
{
    let hdr = str_chars(header_line);
    let entries = header_entries_vec(&hdr);
    let mut out: Vec<(String, usize)> = Vec::new();
    let mut i: usize = 0;
    while i < entries.len()
        invariant
            0 <= i <= entries@.len(),
            entries_view(entries@) == header_entries(header_line@),
            entries@.len() == header_entries(header_line@).len(),
            out@.len() == i,
            forall|k: int|
                0 <= k < i ==> out@[k].0@ == header_entries(header_line@)[k].0 && out@[k].1
                    as int == header_entries(header_line@)[k].1,
        decreases entries@.len() - i,
    {
        let name = chars_to_string(&entries[i].0);
        let pos = entries[i].1;
        out.push((name, pos));
        i += 1;
    }
    out
}

/// Index of the last header token equal to `name`, scanning from the end
/// (when a header name repeats, the rightmost occurrence wins).
pub open spec fn last_index_from(
    entries: Seq<(Seq<char>, int)>,
    name: Seq<char>,
    i: int,
) -> Option<int>
    decreases i,
{
    if i <= 0 || i > entries.len() {
        None
    } else if entries[i - 1].0 == name {
        Some(i - 1)
    } else {
        last_index_from(entries, name, i - 1)
    }
}

pub open spec fn column_index(entries: Seq<(Seq<char>, int)>, name: Seq<char>) -> Option<int> {
    last_index_from(entries, name, entries.len() as int)
}

fn column_index_vec(entries: &Vec<(Vec<char>, usize)>, name: &str) -> (r: Option<usize>)
    ensures
        match r {
            Some(j) => column_index(entries_view(entries@), name@) == Some(j as int) && j
                < entries@.len(),
            None => column_index(entries_view(entries@), name@) is None,
        },
{
    let mut i: usize = entries.len();
    while i > 0
        invariant
            0 <= i <= entries@.len(),
            column_index(entries_view(entries@), name@) == last_index_from(
                entries_view(entries@),
                name@,
                i as int,
            ),
        decreases i,
    {
        if vec_eq_str(&entries[i - 1].0, name) {
            proof {
                assert(entries_view(entries@)[i - 1].0 == entries@[i - 1].0@);
            }
            return Some(i - 1);
        }
        proof {
            assert(entries_view(entries@)[i - 1].0 == entries@[i - 1].0@);
        }
        i -= 1;
    }
    None
}

/// The raw cell between `start` and `end`, clamped to the line and trimmed.
/// A line shorter than a column's start yields an empty cell.
pub open spec fn cell_of(line: Seq<char>, start: int, end: int) -> Seq<char> {
    let lo = if start > line.len() {
        line.len() as int
    } else {
        start
    };
    let hi0 = if end > line.len() {
        line.len() as int
    } else {
        end
    };
    let hi = if hi0 < lo {
        lo
    } else {
        hi0
    };
    trim_spaces(line.subrange(lo, hi))
}

/// Column `i`'s cell in `line`: from that column's start offset to the
/// next column's start offset (to the end of the line for the last one).
pub open spec fn column_cell(line: Seq<char>, entries: Seq<(Seq<char>, int)>, i: int) -> Seq<
    char,
> {
    let start = entries[i].1;
    let end = if i + 1 < entries.len() {
        entries[i + 1].1
    } else {
        line.len() as int
    };
    cell_of(line, start, end)
}

fn column_cell_vec(line: &Vec<char>, entries: &Vec<(Vec<char>, usize)>, i: usize) -> (r: Vec<
    char,
>)
    requires
        i < entries@.len(),
    ensures
        r@ == column_cell(line@, entries_view(entries@), i as int),
{
    let n = line.len();
    let m = entries.len();
    let start = entries[i].1;
    let end = if i + 1 < m {
        entries[i + 1].1
    } else {
        n
    };
    let lo = if start > n {
        n
    } else {
        start
    };
    let hi0 = if end > n {
        n
    } else {
        end
    };
    let hi = if hi0 < lo {
        lo
    } else {
        hi0
    };
    let cell = subvec(line, lo, hi);
    proof {
        assert(cell@ =~= line@.subrange(lo as int, hi as int));
    }
    trim_spaces_vec(&cell)
}

/// The port mappings one clause contributes to a record: an empty clause
/// contributes nothing, and a clause that fails to decode is skipped so
/// that one bad clause does not lose the record.
pub open spec fn clause_ports(clause: Seq<char>) -> Seq<PortMappingView> {
    if clause.len() == 0 {
        Seq::empty()
    } else {
        match decode_port_clause_spec(clause) {
            Ok(v) => v,
            Err(_) => Seq::empty(),
        }
    }
}

pub open spec fn ports_of_clauses(clauses: Seq<Seq<char>>) -> Seq<PortMappingView>
    decreases clauses.len(),
{
    if clauses.len() == 0 {
        Seq::empty()
    } else {
        clause_ports(clauses[0]) + ports_of_clauses(clauses.drop_first())
    }
}

/// The mappings of a whole PORTS cell: clauses are separated by `", "`.
pub open spec fn ports_of_cell(cell: Seq<char>) -> Seq<PortMappingView> {
    ports_of_clauses(split_seq_spec(cell, ", "@))
}

/// Law: an empty PORTS cell yields an empty port-mapping sequence for
/// its record, never a decode failure.
pub proof fn lemma_empty_ports_cell()
    ensures
        ports_of_cell(Seq::empty()) == Seq::<PortMappingView>::empty(),
{
    reveal_strlit(", ");
    let e = Seq::<char>::empty();
    assert(split_seq_spec(e, ", "@) == seq![e]);
    assert(ports_of_clauses(seq![e]) == clause_ports(e) + ports_of_clauses(
        seq![e].drop_first(),
    ));
    assert(seq![e].drop_first() =~= Seq::<Seq<char>>::empty());
    assert(ports_of_clauses(Seq::<Seq<char>>::empty()) == Seq::<PortMappingView>::empty());
    assert(clause_ports(e) + Seq::<PortMappingView>::empty() =~= Seq::<PortMappingView>::empty());
}

proof fn lemma_ports_of_clauses_push(s: Seq<Seq<char>>, x: Seq<char>)
    ensures
        ports_of_clauses(s.push(x)) == ports_of_clauses(s) + clause_ports(x),
    decreases s.len(),
{
    if s.len() == 0 {
        assert(s.push(x)[0] == x);
        assert(s.push(x).drop_first() =~= Seq::<Seq<char>>::empty());
        assert(ports_of_clauses(Seq::<Seq<char>>::empty()) =~= Seq::<PortMappingView>::empty());
        assert(ports_of_clauses(s.push(x)) == clause_ports(x) + Seq::<PortMappingView>::empty());
        assert(clause_ports(x) + Seq::<PortMappingView>::empty() =~= clause_ports(x));
        assert(ports_of_clauses(s) =~= Seq::<PortMappingView>::empty());
        assert(Seq::<PortMappingView>::empty() + clause_ports(x) =~= clause_ports(x));
    } else {
        assert(s.push(x)[0] == s[0]);
        assert(s.push(x).drop_first() =~= s.drop_first().push(x));
        lemma_ports_of_clauses_push(s.drop_first(), x);
        assert(clause_ports(s[0]) + (ports_of_clauses(s.drop_first()) + clause_ports(x)) =~= (
        clause_ports(s[0]) + ports_of_clauses(s.drop_first())) + clause_ports(x));
    }
}

fn ports_of_cell_vec(cell: &Vec<char>) -> (r: Vec<PortMapping>)
    ensures
        r.deep_view() == ports_of_cell(cell@),
{
    let sep = str_chars(", ");
    proof {
        reveal_strlit(", ");
    }
    let clauses = split_seq_vec(cell, &sep);
    let mut out: Vec<PortMapping> = Vec::new();
    let mut i: usize = 0;
    proof {
        assert(out.deep_view() =~= ports_of_clauses(clauses.deep_view().take(0)));
    }
    while i < clauses.len()
        invariant
            0 <= i <= clauses@.len(),
            clauses.deep_view() == split_seq_spec(cell@, ", "@),
            clauses@.len() == split_seq_spec(cell@, ", "@).len(),
            out.deep_view() == ports_of_clauses(clauses.deep_view().take(i as int)),
        decreases clauses@.len() - i,
    {
        proof {
            lemma_char_vec_deep_view(&clauses[i as int]);
        }
        if clauses[i].len() > 0 {
            let cs = chars_to_string(&clauses[i]);
            match PortMapping::from_string(cs.as_str()) {
                Ok(v) => {
                    let mut v2 = v;
                    out.append(&mut v2);
                },
                Err(_e) => {},
            }
        }
        proof {
            lemma_ports_of_clauses_push(
                clauses.deep_view().take(i as int),
                clauses.deep_view()[i as int],
            );
            assert(clauses.deep_view().take(i + 1) =~= clauses.deep_view().take(i as int).push(
                clauses.deep_view()[i as int],
            ));
            assert(out.deep_view() =~= ports_of_clauses(clauses.deep_view().take(i + 1)));
        }
        i += 1;
    }
    proof {
        assert(clauses.deep_view().take(clauses@.len() as int) =~= clauses.deep_view());
    }
    out
}

/// Decoding of one data line against the header's column table. Each
/// required header name must be present (the rightmost occurrence names
/// the column); otherwise the record fails with the missing name. The
/// COMMAND cell is stripped of surrounding quotes; the STATUS cell must
/// decode; bad PORTS clauses are skipped.
pub open spec fn record_spec(line: Seq<char>, entries: Seq<(Seq<char>, int)>) -> Result<
    ContainerView,
    ErrorView,
> {
    match column_index(entries, "NAME"@) {
        None => Err(ErrorView::MissingColumn("NAME"@)),
        Some(ni) => match column_index(entries, "IMAGE"@) {
            None => Err(ErrorView::MissingColumn("IMAGE"@)),
            Some(ii) => match column_index(entries, "COMMAND"@) {
                None => Err(ErrorView::MissingColumn("COMMAND"@)),
                Some(ci) => match column_index(entries, "SERVICE"@) {
                    None => Err(ErrorView::MissingColumn("SERVICE"@)),
                    Some(si) => match column_index(entries, "CREATED"@) {
                        None => Err(ErrorView::MissingColumn("CREATED"@)),
                        Some(cri) => match column_index(entries, "STATUS"@) {
                            None => Err(ErrorView::MissingColumn("STATUS"@)),
                            Some(sti) => match decode_status_spec(
                                column_cell(line, entries, sti),
                            ) {
                                Err(e) => Err(e),
                                Ok(st) => match column_index(entries, "PORTS"@) {
                                    None => Err(ErrorView::MissingColumn("PORTS"@)),
                                    Some(pi) => Ok(
                                        ContainerView {
                                            name: column_cell(line, entries, ni),
                                            image: column_cell(line, entries, ii),
                                            command: trim_pair(
                                                column_cell(line, entries, ci),
                                                '"',
                                                '"',
                                            ),
                                            service: column_cell(line, entries, si),
                                            created: column_cell(line, entries, cri),
                                            status: st,
                                            ports: ports_of_cell(column_cell(line, entries, pi)),
                                        },
                                    ),
                                },
                            },
                        },
                    },
                },
            },
        },
    }
}

fn parse_record_vec(line: &Vec<char>, entries: &Vec<(Vec<char>, usize)>) -> (r: Result<
    Container,
    ComposeError,
>)
    ensures
        (match r {
            Ok(c) => record_spec(line@, entries_view(entries@)) == Ok::<
                ContainerView,
                ErrorView,
            >(c@),
            Err(e) => record_spec(line@, entries_view(entries@)) == Err::<
                ContainerView,
                ErrorView,
            >(e@),
        }),
{
    let ni = match column_index_vec(entries, "NAME") {
        Some(k) => k,
        None => {
            return Err(ComposeError::MissingColumn(String::from_str("NAME")));
        },
    };
    let ii = match column_index_vec(entries, "IMAGE") {
        Some(k) => k,
        None => {
            return Err(ComposeError::MissingColumn(String::from_str("IMAGE")));
        },
    };
    let ci = match column_index_vec(entries, "COMMAND") {
        Some(k) => k,
        None => {
            return Err(ComposeError::MissingColumn(String::from_str("COMMAND")));
        },
    };
    let si = match column_index_vec(entries, "SERVICE") {
        Some(k) => k,
        None => {
            return Err(ComposeError::MissingColumn(String::from_str("SERVICE")));
        },
    };
    let cri = match column_index_vec(entries, "CREATED") {
        Some(k) => k,
        None => {
            return Err(ComposeError::MissingColumn(String::from_str("CREATED")));
        },
    };
    let sti = match column_index_vec(entries, "STATUS") {
        Some(k) => k,
        None => {
            return Err(ComposeError::MissingColumn(String::from_str("STATUS")));
        },
    };
    let st_cell = column_cell_vec(line, entries, sti);
    let st_string = chars_to_string(&st_cell);
    let status = match ContainerStatus::from_string(st_string.as_str()) {
        Ok(cs) => cs,
        Err(e) => {
            return Err(e);
        },
    };
    let pi = match column_index_vec(entries, "PORTS") {
        Some(k) => k,
        None => {
            return Err(ComposeError::MissingColumn(String::from_str("PORTS")));
        },
    };
    let name_cell = column_cell_vec(line, entries, ni);
    let image_cell = column_cell_vec(line, entries, ii);
    let cmd_cell = trim_pair_vec(&column_cell_vec(line, entries, ci), '"', '"');
    let service_cell = column_cell_vec(line, entries, si);
    let created_cell = column_cell_vec(line, entries, cri);
    let ports_cell = column_cell_vec(line, entries, pi);
    let ports = ports_of_cell_vec(&ports_cell);
    Ok(
        Container {
            name: chars_to_string(&name_cell),
            image: chars_to_string(&image_cell),
            command: chars_to_string(&cmd_cell),
            service: chars_to_string(&service_cell),
            created: chars_to_string(&created_cell),
            status,
            ports,
        },
    )
}

/// Decoding of all data lines, in order; the first failing record aborts
/// the whole listing.
pub open spec fn records_spec(lines: Seq<Seq<char>>, entries: Seq<(Seq<char>, int)>) -> Result<
    Seq<ContainerView>,
    ErrorView,
>
    decreases lines.len(),
{
    if lines.len() == 0 {
        Ok(Seq::empty())
    } else {
        match record_spec(lines[0], entries) {
            Err(e) => Err(e),
            Ok(c) => match records_spec(lines.drop_first(), entries) {
                Err(e) => Err(e),
                Ok(rest) => Ok(seq![c] + rest),
            },
        }
    }
}

/// Decoding of a whole listing output: the first line is the header (its
/// absence is a failure), every further line is one record.
pub open spec fn parse_ps_spec(output: Seq<char>) -> Result<Seq<ContainerView>, ErrorView> {
    let ls = lines_spec(output);
    if ls.len() == 0 {
        Err(ErrorView::MissingHeader)
    } else {
        records_spec(ls.skip(1), header_entries(ls[0]))
    }
}

/// Parse the full text of a listing output, as `parse_ps_spec` describes.
pub fn parse_ps(output: &str) -> (r: Result<Vec<Container>, ComposeError>)
    ensures
        (match r {
            Ok(v) => parse_ps_spec(output@) == Ok::<Seq<ContainerView>, ErrorView>(v.deep_view()),
            Err(e) => parse_ps_spec(output@) == Err::<Seq<ContainerView>, ErrorView>(e@),
        }),
{
    let chars = str_chars(output);
    let lines = split_lines_vec(&chars);
    if lines.len() == 0 {
        return Err(ComposeError::MissingHeader);
    }
    proof {
        lemma_char_vec_deep_view(&lines@[0]);
    }
    let entries = header_entries_vec(&lines[0]);
    let ghost all = lines_spec(output@);
    let ghost ev = entries_view(entries@);
    let mut out: Vec<Container> = Vec::new();
    let mut i: usize = 1;
    proof {
        let rr = records_spec(all.skip(1), ev);
        if rr is Ok {
            assert(out.deep_view() + rr->Ok_0 =~= rr->Ok_0);
        }
    }
    while i < lines.len()
        invariant
            1 <= i <= lines@.len(),
            lines.deep_view() == lines_spec(output@),
            lines@.len() == lines_spec(output@).len(),
            all == lines_spec(output@),
            ev == entries_view(entries@),
            ev == header_entries(all[0]),
            (match records_spec(all.skip(i as int), ev) {
                Ok(rest) => records_spec(all.skip(1), ev) == Ok::<Seq<ContainerView>, ErrorView>(
                    out.deep_view() + rest,
                ),
                Err(e) => records_spec(all.skip(1), ev) == Err::<Seq<ContainerView>, ErrorView>(
                    e,
                ),
            }),
        decreases lines@.len() - i,
    {
        proof {
            lemma_char_vec_deep_view(&lines@[i as int]);
            assert(all.skip(i as int)[0] == all[i as int]);
            assert(all.skip(i as int).drop_first() =~= all.skip(i + 1));
        }
        match parse_record_vec(&lines[i], &entries) {
            Ok(c) => {
                let ghost old_dv = out.deep_view();
                let ghost cv = c@;
                out.push(c);
                proof {
                    assert(out.deep_view() =~= old_dv.push(cv));
                    assert(record_spec(all.skip(i as int)[0], ev) == Ok::<
                        ContainerView,
                        ErrorView,
                    >(cv));
                    let rr = records_spec(all.skip(i + 1), ev);
                    if rr is Ok {
                        assert(records_spec(all.skip(i as int), ev) == Ok::<
                            Seq<ContainerView>,
                            ErrorView,
                        >(seq![cv] + rr->Ok_0));
                        assert((old_dv + (seq![cv] + rr->Ok_0)) =~= (old_dv.push(cv)
                            + rr->Ok_0));
                    }
                }
            },
            Err(e) => {
                return Err(e);
            },
        }
        i += 1;
    }
    proof {
        assert(all.skip(lines@.len() as int) =~= Seq::<Seq<char>>::empty());
        assert(out.deep_view() + Seq::<ContainerView>::empty() =~= out.deep_view());
    }
    Ok(out)
}

proof fn lemma_records_spec_props(lines: Seq<Seq<char>>, entries: Seq<(Seq<char>, int)>)
    requires
        records_spec(lines, entries) is Ok,
    ensures
        records_spec(lines, entries)->Ok_0.len() == lines.len(),
        forall|i: int|
            0 <= i < lines.len() ==> (#[trigger] record_spec(lines[i], entries)) is Ok
                && records_spec(lines, entries)->Ok_0[i] == record_spec(lines[i], entries)->Ok_0,
    decreases lines.len(),
{
    if lines.len() > 0 {
        assert(record_spec(lines[0], entries) is Ok);
        assert(records_spec(lines.drop_first(), entries) is Ok);
        lemma_records_spec_props(lines.drop_first(), entries);
        let c = record_spec(lines[0], entries)->Ok_0;
        let rest = records_spec(lines.drop_first(), entries)->Ok_0;
        assert(records_spec(lines, entries)->Ok_0 == seq![c] + rest);
        assert forall|i: int|
            0 <= i < lines.len() implies (#[trigger] record_spec(lines[i], entries)) is Ok
            && records_spec(lines, entries)->Ok_0[i] == record_spec(lines[i], entries)->Ok_0 by {
            if i == 0 {
                assert((seq![c] + rest)[0] == c);
            } else {
                assert(lines.drop_first()[i - 1] == lines[i]);
                assert(0 <= i - 1 < lines.drop_first().len());
                assert(record_spec(lines.drop_first()[i - 1], entries) is Ok && rest[i - 1]
                    == record_spec(lines.drop_first()[i - 1], entries)->Ok_0);
                assert((seq![c] + rest)[i] == rest[i - 1]);
            }
        }
    }
}

/// Law: a successful listing parse yields exactly one record per data
/// line, in input order — the record at position `i` is the decoding of
/// the line that follows the header at position `i`.
pub proof fn lemma_parse_ps_records(output: Seq<char>)
    requires
        parse_ps_spec(output) is Ok,
    ensures
        lines_spec(output).len() >= 1,
        parse_ps_spec(output)->Ok_0.len() == lines_spec(output).len() - 1,
        forall|i: int|
            0 <= i < lines_spec(output).len() - 1 ==> parse_ps_spec(output)->Ok_0[i]
                == record_spec(
                lines_spec(output)[i + 1],
                header_entries(lines_spec(output)[0]),
            )->Ok_0,
{
    let ls = lines_spec(output);
    lemma_records_spec_props(ls.skip(1), header_entries(ls[0]));
    assert forall|i: int|
        0 <= i < ls.len() - 1 implies parse_ps_spec(output)->Ok_0[i] == record_spec(
        ls[i + 1],
        header_entries(ls[0]),
    )->Ok_0 by {
        assert(ls.skip(1)[i] == ls[i + 1]);
    }
}

/// A parameter character of a terminal control sequence: a digit or `;`.
pub open spec fn is_csi_param(c: char) -> bool {
    is_digit_char(c) || c == ';'
}

/// A final byte of the control sequences that are stripped.
pub open spec fn is_csi_final(c: char) -> bool {
    c == 'm' || c == 'G' || c == 'K' || c == 'H' || c == 'f' || c == 'J'
}

fn csi_param_exec(c: char) -> (r: bool)
    ensures
        r == is_csi_param(c),
{
    let d = c as u32;
    (48 <= d && d <= 57) || c == ';'
}

fn csi_final_exec(c: char) -> (r: bool)
    ensures
        r == is_csi_final(c),
{
    c == 'm' || c == 'G' || c == 'K' || c == 'H' || c == 'f' || c == 'J'
}

/// Length of the leading run of parameter characters.
pub open spec fn param_run_len(s: Seq<char>) -> int
    decreases s.len(),
{
    if s.len() > 0 && is_csi_param(s[0]) {
        1 + param_run_len(s.drop_first())
    } else {
        0
    }
}

proof fn lemma_param_run_len(s: Seq<char>)
    ensures
        0 <= param_run_len(s) <= s.len(),
    decreases s.len(),
{
    if s.len() > 0 && is_csi_param(s[0]) {
        lemma_param_run_len(s.drop_first());
    }
}

/// Length of the control sequence at the head of `s`, if one starts
/// there: `ESC [`, a run of parameters, and one final byte.
pub open spec fn esc_match_len(s: Seq<char>) -> Option<int> {
    if s.len() >= 2 && s[0] == '\x1b' && s[1] == '[' {
        let p = param_run_len(s.skip(2));
        if 2 + p < s.len() && is_csi_final(s[2 + p]) {
            Some(p + 3)
        } else {
            None
        }
    } else {
        None
    }
}

/// `s` with every terminal control sequence of the stripped shape
/// removed, scanning left to right.
pub open spec fn strip_ansi_spec(s: Seq<char>) -> Seq<char>
    decreases s.len(),
    via strip_ansi_spec_dec
{
    if s.len() == 0 {
        Seq::empty()
    } else {
        match esc_match_len(s) {
            Some(m) => strip_ansi_spec(s.skip(m)),
            None => seq![s[0]] + strip_ansi_spec(s.skip(1)),
        }
    }
}

#[via_fn]
proof fn strip_ansi_spec_dec(s: Seq<char>) {
    if s.len() >= 2 {
        lemma_param_run_len(s.skip(2));
    }
}

/// Strip terminal control sequences from a line. Callers treat a failure
/// to build the matcher as possible at process start-up; the escape shape
/// here is fixed, so the call always succeeds.
pub fn remove_ansi_codes(input: &str) -> (r: Result<String, ComposeError>)
    ensures
        r is Ok,
        r matches Ok(t) ==> t@ == strip_ansi_spec(input@),
{
    let s = str_chars(input);
    let n = s.len();
    let mut out: Vec<char> = Vec::new();
    let mut i: usize = 0;
    proof {
        assert(s@.skip(0) =~= s@);
        assert(out@ + strip_ansi_spec(s@) =~= strip_ansi_spec(s@));
    }
    while i < n
        invariant
            0 <= i <= n,
            n == s@.len(),
            strip_ansi_spec(s@) == out@ + strip_ansi_spec(s@.skip(i as int)),
        decreases n - i,
    {
        let ghost u = s@.skip(i as int);
        if s[i] == '\x1b' && i + 1 < n && s[i + 1] == '[' {
            let mut j: usize = i + 2;
            proof {
                assert(u.skip(2) =~= s@.skip(i + 2));
            }
            while j < n && csi_param_exec(s[j])
                invariant
                    i + 2 <= j <= n,
                    n == s@.len(),
                    u == s@.skip(i as int),
                    param_run_len(s@.skip(i + 2)) == (j - i - 2) + param_run_len(
                        s@.skip(j as int),
                    ),
                decreases n - j,
            {
                proof {
                    assert(s@.skip(j as int)[0] == s@[j as int]);
                    assert(s@.skip(j as int).drop_first() =~= s@.skip(j + 1));
                }
                j += 1;
            }
            proof {
                if j < n {
                    assert(s@.skip(j as int)[0] == s@[j as int]);
                    assert(param_run_len(s@.skip(j as int)) == 0);
                } else {
                    assert(s@.skip(j as int).len() == 0);
                }
                assert(u.skip(2) =~= s@.skip(i + 2));
                assert(param_run_len(u.skip(2)) == j - i - 2);
                assert(u[0] == s@[i as int]);
                assert(u[1] == s@[i + 1]);
            }
            if j < n && csi_final_exec(s[j]) {
                proof {
                    assert(u[2 + (j - i - 2)] == s@[j as int]);
                    assert(esc_match_len(u) == Some((j - i - 2) + 3));
                    assert(u.skip((j - i - 2) + 3) =~= s@.skip(j + 1));
                    assert(strip_ansi_spec(u) == strip_ansi_spec(s@.skip(j + 1)));
                }
                i = j + 1;
            } else {
                proof {
                    if j < n {
                        assert(u[2 + (j - i - 2)] == s@[j as int]);
                        assert(!is_csi_final(u[2 + param_run_len(u.skip(2))]));
                    }
                    assert(esc_match_len(u) is None);
                    assert(u.skip(1) =~= s@.skip(i + 1));
                    assert(strip_ansi_spec(u) == seq![u[0]] + strip_ansi_spec(s@.skip(i + 1)));
                    assert((out@ + strip_ansi_spec(u)) =~= (out@.push(s@[i as int])
                        + strip_ansi_spec(s@.skip(i + 1))));
                }
                out.push(s[i]);
                i += 1;
            }
        } else {
            proof {
                assert(u[0] == s@[i as int]);
                if i + 1 < n {
                    assert(u[1] == s@[i + 1]);
                }
                assert(esc_match_len(u) is None);
                assert(u.skip(1) =~= s@.skip(i + 1));
                assert(strip_ansi_spec(u) == seq![u[0]] + strip_ansi_spec(s@.skip(i + 1)));
                assert((out@ + strip_ansi_spec(u)) =~= (out@.push(s@[i as int]) + strip_ansi_spec(
                    s@.skip(i + 1),
                )));
            }
            out.push(s[i]);
            i += 1;
        }
    }
    proof {
        assert(s@.skip(n as int).len() == 0);
        assert(out@ + strip_ansi_spec(s@.skip(n as int)) =~= out@);
    }
    Ok(chars_to_string(&out))
}

} // verus!
