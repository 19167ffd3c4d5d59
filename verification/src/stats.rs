//! Per-entity resource samples of the stats stream: decoding one JSON line
//! into a typed sample, and aggregating a window of samples into one
//! averaged record per entity.

use vstd::prelude::*;

use crate::error::{ComposeError, ErrorView};
use crate::parser::{lines_spec, remove_ansi_codes, split_lines_vec, strip_ansi_spec};
use crate::text::{
    all_digits, chars_to_string, count_digits, dec_val, digit_count, find_char, find_char_vec,
    lemma_char_vec_deep_view, parse_dec_bounded, split_char_spec, split_char_vec, str_chars,
    str_eq, subvec, trim_end_pair, trim_end_pair_vec, trim_spaces, trim_spaces_vec,
};
use vstd::arithmetic::div_mod::{lemma_div_is_ordered, lemma_div_multiples_vanish};

verus! {

/// Current and total of a byte quantity pair (`10MiB / 7.685GiB`).
#[derive(Debug, Clone, Copy, PartialEq, Eq, Structural)]
pub struct StatsUsage {
    pub usage: u64,
    pub limit: u64,
}

/// Input and output byte counts of an I/O pair (`1.39kB / 0B`).
#[derive(Debug, Clone, Copy, PartialEq, Eq, Structural)]
pub struct StatsIO {
    pub input: u64,
    pub output: u64,
}

/// A percentage in millionths of a percent: `0.03%` is held as `30000`.
/// Fixed-point keeps the arithmetic of the aggregator exact.
#[derive(Debug, Clone, Copy, PartialEq, Eq, Structural)]
pub struct StatsPercentage(pub u64);

/// What `parse_size::parse_size` decodes a human-readable size text to,
/// if anything. The decoding is a function of the text alone.
pub uninterp spec fn parsed_size(s: Seq<char>) -> Option<u64>;

/// Relies on `parse_size::parse_size`: decodes a human-readable byte
/// count (`10MiB`, `1.39kB`) from the text alone; its failures become
/// `None`. The digit bound keeps the call clear of the parser's
/// rounding step for an overflowing twentieth significant digit, whose
/// increment is unchecked: below twenty digit characters the mantissa
/// stays under 10^19 and every append fits in a `u64`, so that branch
/// is never reached and the call cannot panic.
#[verifier::external_body]
fn parse_size_text(s: &str) -> (r: Option<u64>)
    requires
        digit_count(s@) <= 19,
    ensures
        r == parsed_size(s@),
{
    match parse_size::parse_size(s) {
        Ok(v) => Some(v),
        Err(_) => None,
    }
}

/// Decoding of one side of a size pair: trimmed, then read as a size. A
/// side with more than nineteen digit characters is rejected outright —
/// far beyond any size text the tool prints, and short enough that the
/// size parser's arithmetic never overflows.
pub open spec fn decode_side_spec(side: Seq<char>) -> Option<u64> {
    let t = trim_spaces(side);
    if digit_count(t) > 19 {
        None
    } else {
        parsed_size(t)
    }
}

/// Decoding of a `current / total` pair: split at `/`, trim both sides,
/// decode each side as a size; anything else fails.
pub open spec fn decode_ratio_spec(s: Seq<char>) -> Option<(u64, u64)> {
    let parts = split_char_spec(s, '/');
    if parts.len() < 2 {
        None
    } else {
        match decode_side_spec(parts[0]) {
            None => None,
            Some(a) => match decode_side_spec(parts[1]) {
                None => None,
                Some(b) => Some((a, b)),
            },
        }
    }
}

fn decode_side(side: &Vec<char>) -> (r: Option<u64>)
    ensures
        r == decode_side_spec(side@),
{
    let t = trim_spaces_vec(side);
    if count_digits(&t) > 19 {
        return None;
    }
    parse_size_text(chars_to_string(&t).as_str())
}

fn decode_ratio(s: &Vec<char>) -> (r: Option<(u64, u64)>)
    ensures
        r == decode_ratio_spec(s@),
{
    let parts = split_char_vec(s, '/');
    if parts.len() < 2 {
        return None;
    }
    proof {
        lemma_char_vec_deep_view(&parts@[0]);
        lemma_char_vec_deep_view(&parts@[1]);
    }
    let a = match decode_side(&parts[0]) {
        Some(a) => a,
        None => {
            return None;
        },
    };
    let b = match decode_side(&parts[1]) {
        Some(b) => b,
        None => {
            return None;
        },
    };
    Some((a, b))
}

impl StatsUsage {
    /// Decode a `current / total` memory usage cell.
    pub fn from_string(s: &str) -> (r: Result<StatsUsage, ComposeError>)
        ensures
            (match r {
                Ok(u) => decode_ratio_spec(s@) == Some((u.usage, u.limit)),
                Err(e) => decode_ratio_spec(s@) is None && e@ == ErrorView::InvalidSize(s@),
            }),
    {
        let v = str_chars(s);
        match decode_ratio(&v) {
            Some(p) => Ok(StatsUsage { usage: p.0, limit: p.1 }),
            None => Err(ComposeError::InvalidSize(chars_to_string(&v))),
        }
    }
}

impl StatsIO {
    /// Decode an `input / output` I/O cell.
    pub fn from_string(s: &str) -> (r: Result<StatsIO, ComposeError>)
        ensures
            (match r {
                Ok(u) => decode_ratio_spec(s@) == Some((u.input, u.output)),
                Err(e) => decode_ratio_spec(s@) is None && e@ == ErrorView::InvalidSize(s@),
            }),
    {
        let v = str_chars(s);
        match decode_ratio(&v) {
            Some(p) => Ok(StatsIO { input: p.0, output: p.1 }),
            None => Err(ComposeError::InvalidSize(chars_to_string(&v))),
        }
    }
}

/// Powers of ten up to a million, for fixed-point scaling.
pub open spec fn pow10(k: int) -> int {
    if k <= 0 {
        1
    } else if k == 1 {
        10
    } else if k == 2 {
        100
    } else if k == 3 {
        1000
    } else if k == 4 {
        10000
    } else if k == 5 {
        100000
    } else {
        1000000
    }
}

proof fn lemma_dec_val_small(s: Seq<char>)
    requires
        all_digits(s),
        s.len() <= 6,
    ensures
        0 <= dec_val(s),
        dec_val(s) < pow10(s.len() as int),
    decreases s.len(),
{
    if s.len() > 0 {
        assert(all_digits(s.drop_last()));
        lemma_dec_val_small(s.drop_last());
        assert(pow10(s.len() as int) == 10 * pow10(s.len() - 1));
    }
}

/// The first six fractional digits, scaled to millionths; further digits
/// are cut off.
pub open spec fn frac_micros(fp: Seq<char>) -> int {
    let k = if fp.len() > 6 {
        6
    } else {
        fp.len() as int
    };
    dec_val(fp.take(k)) * pow10(6 - k)
}

/// Millionths of a percent denoted by a decimal numeral: an optional
/// leading `+`, an integer part and an optional fractional part after a
/// single dot, at least one digit in all. The integer part is limited to
/// `0x0FFF_FFFF` so that the fixed-point value always fits; exponents and
/// signs other than `+` are rejected.
pub open spec fn percent_micros_of(t: Seq<char>) -> Option<u64> {
    let u = if t.len() > 0 && t[0] == '+' {
        t.drop_first()
    } else {
        t
    };
    match find_char(u, '.') {
        Some(d) => {
            let ip = u.take(d);
            let fp = u.skip(d + 1);
            if ip.len() + fp.len() > 0 && all_digits(ip) && all_digits(fp) && dec_val(ip)
                <= 0x0FFF_FFFF {
                Some((dec_val(ip) * 1000000 + frac_micros(fp)) as u64)
            } else {
                None
            }
        },
        None => {
            if u.len() > 0 && all_digits(u) && dec_val(u) <= 0x0FFF_FFFF {
                Some((dec_val(u) * 1000000) as u64)
            } else {
                None
            }
        },
    }
}

/// Decoding of a percentage cell: trailing `%` signs removed, the rest
/// read as a fixed-point decimal.
pub open spec fn decode_percentage_spec(s: Seq<char>) -> Option<u64> {
    percent_micros_of(trim_end_pair(s, '%', '%'))
}

fn pow10_exec(k: usize) -> (r: u64)
    requires
        k <= 6,
    ensures
        r as int == pow10(k as int),
{
    if k == 0 {
        1
    } else if k == 1 {
        10
    } else if k == 2 {
        100
    } else if k == 3 {
        1000
    } else if k == 4 {
        10000
    } else if k == 5 {
        100000
    } else {
        1000000
    }
}

fn all_digits_vec(s: &Vec<char>) -> (r: bool)
    ensures
        r == all_digits(s@),
{
    let mut i: usize = 0;
    while i < s.len()
        invariant
            0 <= i <= s@.len(),
            forall|k: int| 0 <= k < i ==> crate::text::is_digit_char(#[trigger] s@[k]),
        decreases s@.len() - i,
    {
        let d = s[i] as u32;
        if d < 48 || d > 57 {
            assert(!crate::text::is_digit_char(s@[i as int]));
            return false;
        }
        i += 1;
    }
    true
}

fn percent_micros_vec(t: &Vec<char>) -> (r: Option<u64>)
    ensures
        r == percent_micros_of(t@),
{
    let n = t.len();
    let u = if n > 0 && t[0] == '+' {
        subvec(t, 1, n)
    } else {
        subvec(t, 0, n)
    };
    proof {
        if n > 0 && t@[0] == '+' {
            assert(u@ =~= t@.drop_first());
        } else {
            assert(u@ =~= t@);
        }
    }
    match find_char_vec(&u, '.') {
        Some(d) => {
            let ip = subvec(&u, 0, d);
            let fp = subvec(&u, d + 1, u.len());
            proof {
                assert(ip@ =~= u@.take(d as int));
                assert(fp@ =~= u@.skip(d + 1));
            }
            if ip.len() == 0 && fp.len() == 0 {
                return None;
            }
            if !all_digits_vec(&fp) {
                return None;
            }
            let ipv: u64 = if ip.len() == 0 {
                0
            } else {
                match parse_dec_bounded(&ip, 0x0FFF_FFFF) {
                    Some(v) => v as u64,
                    None => {
                        return None;
                    },
                }
            };
            proof {
                assert(ipv as int == dec_val(ip@));
            }
            let k = if fp.len() > 6 {
                6
            } else {
                fp.len()
            };
            let fp6 = subvec(&fp, 0, k);
            proof {
                assert(fp6@ =~= fp@.take(k as int));
                assert(all_digits(fp6@));
            }
            let fv: u64 = if k == 0 {
                0
            } else {
                match parse_dec_bounded(&fp6, 999999) {
                    Some(v) => v as u64,
                    None => {
                        proof {
                            lemma_dec_val_small(fp6@);
                            assert(false);
                        }
                        0
                    },
                }
            };
            proof {
                assert(fv as int == dec_val(fp6@));
                assert(fv <= 999999);
            }
            let scale = pow10_exec(6 - k);
            proof {
                assert(scale <= 1000000);
                assert(fv * scale <= 999999000000) by (nonlinear_arith)
                    requires
                        fv <= 999999,
                        scale <= 1000000,
                        0 <= fv,
                        0 <= scale,
                ;
            }
            Some(ipv * 1000000 + fv * scale)
        },
        None => {
            if u.len() == 0 {
                return None;
            }
            match parse_dec_bounded(&u, 0x0FFF_FFFF) {
                Some(v) => Some((v as u64) * 1000000),
                None => None,
            }
        },
    }
}

impl StatsPercentage {
    /// Decode a percentage cell into millionths of a percent.
    pub fn from_string(s: &str) -> (r: Result<StatsPercentage, ComposeError>)
        ensures
            (match r {
                Ok(p) => decode_percentage_spec(s@) == Some(p.0),
                Err(e) => decode_percentage_spec(s@) is None && e@ == ErrorView::InvalidPercentage(
                    s@,
                ),
            }),
    {
        let v = str_chars(s);
        let t = trim_end_pair_vec(&v, '%', '%');
        match percent_micros_vec(&t) {
            Some(m) => Ok(StatsPercentage(m)),
            None => Err(ComposeError::InvalidPercentage(chars_to_string(&v))),
        }
    }
}

/// One per-entity resource sample of the stats stream.
#[derive(Debug, Clone)]
pub struct Stats {
    pub block_io: StatsIO,
    pub cpu_perc: StatsPercentage,
    pub container: String,
    pub id: String,
    pub mem_perc: StatsPercentage,
    pub mem_usage: StatsUsage,
    pub name: String,
    pub net_io: StatsIO,
    pub pids: String,
}

/// Mathematical mirror of `Stats`.
pub struct StatsView {
    pub block_io: StatsIO,
    pub cpu_perc: StatsPercentage,
    pub container: Seq<char>,
    pub id: Seq<char>,
    pub mem_perc: StatsPercentage,
    pub mem_usage: StatsUsage,
    pub name: Seq<char>,
    pub net_io: StatsIO,
    pub pids: Seq<char>,
}

impl View for Stats {
    type V = StatsView;

    open spec fn view(&self) -> StatsView {
        StatsView {
            block_io: self.block_io,
            cpu_perc: self.cpu_perc,
            container: self.container@,
            id: self.id@,
            mem_perc: self.mem_perc,
            mem_usage: self.mem_usage,
            name: self.name@,
            net_io: self.net_io,
            pids: self.pids@,
        }
    }
}

impl DeepView for Stats {
    type V = StatsView;

    open spec fn deep_view(&self) -> StatsView {
        self.view()
    }
}

/// What a line of stream output denotes as a JSON object of string
/// fields, if it is one: the string-valued fields as key/value pairs,
/// ordered by key with no key repeated.
pub uninterp spec fn json_str_fields(s: Seq<char>) -> Option<Seq<(Seq<char>, Seq<char>)>>;

/// Relies on `serde_json::from_str::<Value>` and `Value`'s variants: a
/// line that parses as a JSON object yields its string-valued fields as
/// key/value pairs (serde_json's object map orders them by key and holds
/// each key once); any other line yields nothing. The decoding is a
/// function of the line alone.
#[verifier::external_body]
fn json_object_strings(line: &str) -> (r: Option<Vec<(String, String)>>)
    ensures
        (match r {
            Some(v) => json_str_fields(line@) == Some(v.deep_view()),
            None => json_str_fields(line@) is None,
        }),
        (match r {
            Some(v) => forall|i: int, j: int|
                0 <= i < j < v.deep_view().len() ==> v.deep_view()[i].0 != v.deep_view()[j].0,
            None => true,
        }),
{
    let v: serde_json::Value = match serde_json::from_str(line) {
        Ok(v) => v,
        Err(_) => return None,
    };
    let obj = match v {
        serde_json::Value::Object(m) => m,
        _ => return None,
    };
    let mut out = Vec::new();
    for (k, val) in obj {
        if let serde_json::Value::String(s) = val {
            out.push((k, s));
        }
    }
    Some(out)
}

/// First value under `key`, if any.
pub open spec fn field_of(fields: Seq<(Seq<char>, Seq<char>)>, key: Seq<char>) -> Option<
    Seq<char>,
>
    decreases fields.len(),
{
    if fields.len() == 0 {
        None
    } else if fields[0].0 == key {
        Some(fields[0].1)
    } else {
        field_of(fields.drop_first(), key)
    }
}

fn field_lookup(fields: &Vec<(String, String)>, key: &str) -> (r: Option<String>)
    ensures
        (match r {
            Some(v) => field_of(fields.deep_view(), key@) == Some(v@),
            None => field_of(fields.deep_view(), key@) is None,
        }),
{
    let mut i: usize = 0;
    proof {
        assert(fields.deep_view().skip(0) =~= fields.deep_view());
    }
    while i < fields.len()
        invariant
            0 <= i <= fields@.len(),
            fields@.len() == fields.deep_view().len(),
            field_of(fields.deep_view(), key@) == field_of(
                fields.deep_view().skip(i as int),
                key@,
            ),
        decreases fields@.len() - i,
    {
        proof {
            assert(fields.deep_view().skip(i as int)[0] == fields.deep_view()[i as int]);
            assert(fields.deep_view()[i as int] == (fields@[i as int].0@, fields@[i as int].1@));
            assert(fields.deep_view().skip(i as int).drop_first() =~= fields.deep_view().skip(
                i + 1,
            ));
        }
        if str_eq(fields[i].0.as_str(), key) {
            let v = fields[i].1.clone();
            return Some(v);
        }
        i += 1;
    }
    None
}

/// A required field: its absence is a decode failure naming the key.
pub open spec fn req_field(fields: Seq<(Seq<char>, Seq<char>)>, key: Seq<char>) -> Result<
    Seq<char>,
    ErrorView,
> {
    match field_of(fields, key) {
        Some(v) => Ok(v),
        None => Err(ErrorView::JsonDecodeError(key)),
    }
}

/// A `current / total` field that must decode as a size pair.
pub open spec fn ratio_field(txt: Seq<char>) -> Result<(u64, u64), ErrorView> {
    match decode_ratio_spec(txt) {
        Some(p) => Ok(p),
        None => Err(ErrorView::InvalidSize(txt)),
    }
}

/// A percentage field that must decode as fixed-point millionths.
pub open spec fn percent_field(txt: Seq<char>) -> Result<u64, ErrorView> {
    match decode_percentage_spec(txt) {
        Some(m) => Ok(m),
        None => Err(ErrorView::InvalidPercentage(txt)),
    }
}

/// Decoding of a sample from the string fields of its JSON object: each
/// named field must be present, the compound fields must decode, and the
/// remaining fields are taken verbatim.
pub open spec fn decode_stats_fields_spec(fields: Seq<(Seq<char>, Seq<char>)>) -> Result<
    StatsView,
    ErrorView,
> {
    match req_field(fields, "BlockIO"@) {
        Err(e) => Err(e),
        Ok(bio_txt) => match ratio_field(bio_txt) {
            Err(e) => Err(e),
            Ok(bio) => match req_field(fields, "CPUPerc"@) {
                Err(e) => Err(e),
                Ok(cpu_txt) => match percent_field(cpu_txt) {
                    Err(e) => Err(e),
                    Ok(cpu) => match req_field(fields, "Container"@) {
                        Err(e) => Err(e),
                        Ok(container) => match req_field(fields, "ID"@) {
                            Err(e) => Err(e),
                            Ok(id) => match req_field(fields, "MemPerc"@) {
                                Err(e) => Err(e),
                                Ok(mp_txt) => match percent_field(mp_txt) {
                                    Err(e) => Err(e),
                                    Ok(mp) => match req_field(fields, "MemUsage"@) {
                                        Err(e) => Err(e),
                                        Ok(mu_txt) => match ratio_field(mu_txt) {
                                            Err(e) => Err(e),
                                            Ok(mu) => match req_field(fields, "Name"@) {
                                                Err(e) => Err(e),
                                                Ok(name) => match req_field(fields, "NetIO"@) {
                                                    Err(e) => Err(e),
                                                    Ok(nio_txt) => match ratio_field(nio_txt) {
                                                        Err(e) => Err(e),
                                                        Ok(nio) => match req_field(
                                                            fields,
                                                            "PIDs"@,
                                                        ) {
                                                            Err(e) => Err(e),
                                                            Ok(pids) => Ok(
                                                                StatsView {
                                                                    block_io: StatsIO {
                                                                        input: bio.0,
                                                                        output: bio.1,
                                                                    },
                                                                    cpu_perc: StatsPercentage(
                                                                        cpu,
                                                                    ),
                                                                    container,
                                                                    id,
                                                                    mem_perc: StatsPercentage(mp),
                                                                    mem_usage: StatsUsage {
                                                                        usage: mu.0,
                                                                        limit: mu.1,
                                                                    },
                                                                    name,
                                                                    net_io: StatsIO {
                                                                        input: nio.0,
                                                                        output: nio.1,
                                                                    },
                                                                    pids,
                                                                },
                                                            ),
                                                        },
                                                    },
                                                },
                                            },
                                        },
                                    },
                                },
                            },
                        },
                    },
                },
            },
        },
    }
}

/// Decoding of one stream line: it must be a JSON object (else the line
/// itself names the failure), whose fields decode as a sample.
pub open spec fn decode_stats_line_spec(line: Seq<char>) -> Result<StatsView, ErrorView> {
    match json_str_fields(line) {
        None => Err(ErrorView::JsonDecodeError(line)),
        Some(fields) => decode_stats_fields_spec(fields),
    }
}

impl Stats {
    /// Decode one line of stream output, as `decode_stats_line_spec`
    /// describes.
    pub fn from_json_line(line: &str) -> (r: Result<Stats, ComposeError>)
        ensures
            (match r {
                Ok(s) => decode_stats_line_spec(line@) == Ok::<StatsView, ErrorView>(s@),
                Err(e) => decode_stats_line_spec(line@) == Err::<StatsView, ErrorView>(e@),
            }),
    {
        let fields = match json_object_strings(line) {
            Some(f) => f,
            None => {
                return Err(ComposeError::JsonDecodeError(String::from_str(line)));
            },
        };
        let bio_txt = match field_lookup(&fields, "BlockIO") {
            Some(v) => v,
            None => {
                return Err(ComposeError::JsonDecodeError(String::from_str("BlockIO")));
            },
        };
        let bio = match StatsIO::from_string(bio_txt.as_str()) {
            Ok(v) => v,
            Err(e) => {
                return Err(e);
            },
        };
        let cpu_txt = match field_lookup(&fields, "CPUPerc") {
            Some(v) => v,
            None => {
                return Err(ComposeError::JsonDecodeError(String::from_str("CPUPerc")));
            },
        };
        let cpu = match StatsPercentage::from_string(cpu_txt.as_str()) {
            Ok(v) => v,
            Err(e) => {
                return Err(e);
            },
        };
        let container = match field_lookup(&fields, "Container") {
            Some(v) => v,
            None => {
                return Err(ComposeError::JsonDecodeError(String::from_str("Container")));
            },
        };
        let id = match field_lookup(&fields, "ID") {
            Some(v) => v,
            None => {
                return Err(ComposeError::JsonDecodeError(String::from_str("ID")));
            },
        };
        let mp_txt = match field_lookup(&fields, "MemPerc") {
            Some(v) => v,
            None => {
                return Err(ComposeError::JsonDecodeError(String::from_str("MemPerc")));
            },
        };
        let mp = match StatsPercentage::from_string(mp_txt.as_str()) {
            Ok(v) => v,
            Err(e) => {
                return Err(e);
            },
        };
        let mu_txt = match field_lookup(&fields, "MemUsage") {
            Some(v) => v,
            None => {
                return Err(ComposeError::JsonDecodeError(String::from_str("MemUsage")));
            },
        };
        let mu = match StatsUsage::from_string(mu_txt.as_str()) {
            Ok(v) => v,
            Err(e) => {
                return Err(e);
            },
        };
        let name = match field_lookup(&fields, "Name") {
            Some(v) => v,
            None => {
                return Err(ComposeError::JsonDecodeError(String::from_str("Name")));
            },
        };
        let nio_txt = match field_lookup(&fields, "NetIO") {
            Some(v) => v,
            None => {
                return Err(ComposeError::JsonDecodeError(String::from_str("NetIO")));
            },
        };
        let nio = match StatsIO::from_string(nio_txt.as_str()) {
            Ok(v) => v,
            Err(e) => {
                return Err(e);
            },
        };
        let pids = match field_lookup(&fields, "PIDs") {
            Some(v) => v,
            None => {
                return Err(ComposeError::JsonDecodeError(String::from_str("PIDs")));
            },
        };
        Ok(
            Stats {
                block_io: bio,
                cpu_perc: cpu,
                container,
                id,
                mem_perc: mp,
                mem_usage: mu,
                name,
                net_io: nio,
                pids,
            },
        )
    }
}

/// Decoding of every line of a window, in order; the first failure fails
/// the whole window.
pub open spec fn decode_window_spec(lines: Seq<Seq<char>>) -> Result<Seq<StatsView>, ErrorView>
    decreases lines.len(),
{
    if lines.len() == 0 {
        Ok(Seq::empty())
    } else {
        match decode_stats_line_spec(lines[0]) {
            Err(e) => Err(e),
            Ok(s) => match decode_window_spec(lines.drop_first()) {
                Err(e) => Err(e),
                Ok(rest) => Ok(seq![s] + rest),
            },
        }
    }
}

/// Decoding of a one-shot stats output: one JSON sample per line.
pub open spec fn parse_stats_output_spec(out: Seq<char>) -> Result<Seq<StatsView>, ErrorView> {
    decode_window_spec(lines_spec(out))
}

/// Parse the full text of a one-shot stats command output.
pub fn parse_stats_output(output: &str) -> (r: Result<Vec<Stats>, ComposeError>)
    ensures
        (match r {
            Ok(v) => parse_stats_output_spec(output@) == Ok::<Seq<StatsView>, ErrorView>(
                v.deep_view(),
            ),
            Err(e) => parse_stats_output_spec(output@) == Err::<Seq<StatsView>, ErrorView>(e@),
        }),
{
    let chars = str_chars(output);
    let lines = split_lines_vec(&chars);
    let ghost all = lines_spec(output@);
    let mut out: Vec<Stats> = Vec::new();
    let mut i: usize = 0;
    proof {
        assert(all.skip(0) =~= all);
        let rr = decode_window_spec(all);
        if rr is Ok {
            assert(out.deep_view() + rr->Ok_0 =~= rr->Ok_0);
        }
    }
    while i < lines.len()
        invariant
            0 <= i <= lines@.len(),
            lines.deep_view() == lines_spec(output@),
            lines@.len() == lines_spec(output@).len(),
            all == lines_spec(output@),
            (match decode_window_spec(all.skip(i as int)) {
                Ok(rest) => decode_window_spec(all) == Ok::<Seq<StatsView>, ErrorView>(
                    out.deep_view() + rest,
                ),
                Err(e) => decode_window_spec(all) == Err::<Seq<StatsView>, ErrorView>(e),
            }),
        decreases lines@.len() - i,
    {
        proof {
            lemma_char_vec_deep_view(&lines@[i as int]);
            assert(all.skip(i as int)[0] == all[i as int]);
            assert(all.skip(i as int).drop_first() =~= all.skip(i + 1));
        }
        match Stats::from_json_line(chars_to_string(&lines[i]).as_str()) {
            Ok(s) => {
                let ghost old_dv = out.deep_view();
                let ghost sv = s@;
                out.push(s);
                proof {
                    assert(out.deep_view() =~= old_dv.push(sv));
                    let rr = decode_window_spec(all.skip(i + 1));
                    if rr is Ok {
                        assert((old_dv + (seq![sv] + rr->Ok_0)) =~= (old_dv.push(sv) + rr->Ok_0));
                    }
                }
            },
            Err(e) => {
                return Err(e);
            },
        }
        i += 1;
    }
    proof {
        assert(all.skip(lines@.len() as int) =~= Seq::<Seq<char>>::empty());
        assert(out.deep_view() + Seq::<StatsView>::empty() =~= out.deep_view());
    }
    Ok(out)
}

/// Sanitize one raw stream line: terminal escapes stripped, whitespace
/// trimmed; a line that is empty after that is not collected.
pub fn clean_line(raw: &str) -> (r: Option<String>)
    ensures
        (match r {
            Some(t) => t@ == trim_spaces(strip_ansi_spec(raw@)) && t@.len() > 0,
            None => trim_spaces(strip_ansi_spec(raw@)).len() == 0,
        }),
{
    let stripped = match remove_ansi_codes(raw) {
        Ok(s) => s,
        Err(_) => {
            proof {
                assert(false);
            }
            return None;
        },
    };
    let chars = str_chars(stripped.as_str());
    let t = trim_spaces_vec(&chars);
    if t.len() == 0 {
        None
    } else {
        Some(chars_to_string(&t))
    }
}

/// Sum of the block input bytes of a group.
pub open spec fn sum_block_in(g: Seq<StatsView>) -> int
    decreases g.len(),
{
    if g.len() == 0 {
        0
    } else {
        sum_block_in(g.drop_last()) + g.last().block_io.input
    }
}

/// Sum of the block output bytes of a group.
pub open spec fn sum_block_out(g: Seq<StatsView>) -> int
    decreases g.len(),
{
    if g.len() == 0 {
        0
    } else {
        sum_block_out(g.drop_last()) + g.last().block_io.output
    }
}

/// Sum of the CPU percentages of a group, in millionths.
pub open spec fn sum_cpu(g: Seq<StatsView>) -> int
    decreases g.len(),
{
    if g.len() == 0 {
        0
    } else {
        sum_cpu(g.drop_last()) + g.last().cpu_perc.0
    }
}

/// Sum of the memory percentages of a group, in millionths.
pub open spec fn sum_mem_perc(g: Seq<StatsView>) -> int
    decreases g.len(),
{
    if g.len() == 0 {
        0
    } else {
        sum_mem_perc(g.drop_last()) + g.last().mem_perc.0
    }
}

/// Sum of the memory usage bytes of a group.
pub open spec fn sum_mem_usage(g: Seq<StatsView>) -> int
    decreases g.len(),
{
    if g.len() == 0 {
        0
    } else {
        sum_mem_usage(g.drop_last()) + g.last().mem_usage.usage
    }
}

/// Sum of the memory limit bytes of a group.
pub open spec fn sum_mem_limit(g: Seq<StatsView>) -> int
    decreases g.len(),
{
    if g.len() == 0 {
        0
    } else {
        sum_mem_limit(g.drop_last()) + g.last().mem_usage.limit
    }
}

/// Sum of the network input bytes of a group.
pub open spec fn sum_net_in(g: Seq<StatsView>) -> int
    decreases g.len(),
{
    if g.len() == 0 {
        0
    } else {
        sum_net_in(g.drop_last()) + g.last().net_io.input
    }
}

/// Sum of the network output bytes of a group.
pub open spec fn sum_net_out(g: Seq<StatsView>) -> int
    decreases g.len(),
{
    if g.len() == 0 {
        0
    } else {
        sum_net_out(g.drop_last()) + g.last().net_io.output
    }
}

/// The samples of `samples` whose entity id is `id`, in order.
pub open spec fn group_of(samples: Seq<StatsView>, id: Seq<char>) -> Seq<StatsView> {
    samples.filter(|v: StatsView| v.id == id)
}

proof fn lemma_group_push(s: Seq<StatsView>, x: StatsView, id: Seq<char>)
    ensures
        group_of(s.push(x), id) == if x.id == id {
            group_of(s, id).push(x)
        } else {
            group_of(s, id)
        },
{
    reveal(Seq::<StatsView>::filter);
    assert(s.push(x).drop_last() =~= s);
    assert(s.push(x).last() == x);
}

/// The averaged record of a non-empty group: the eight resource numbers
/// are arithmetic means over the group (integer division truncates), and
/// the identifying fields come verbatim from the group's first sample.
pub open spec fn avg_of_group(g: Seq<StatsView>) -> StatsView {
    let n = g.len() as int;
    StatsView {
        block_io: StatsIO {
            input: (sum_block_in(g) / n) as u64,
            output: (sum_block_out(g) / n) as u64,
        },
        cpu_perc: StatsPercentage((sum_cpu(g) / n) as u64),
        container: g[0].container,
        id: g[0].id,
        mem_perc: StatsPercentage((sum_mem_perc(g) / n) as u64),
        mem_usage: StatsUsage {
            usage: (sum_mem_usage(g) / n) as u64,
            limit: (sum_mem_limit(g) / n) as u64,
        },
        name: g[0].name,
        net_io: StatsIO {
            input: (sum_net_in(g) / n) as u64,
            output: (sum_net_out(g) / n) as u64,
        },
        pids: g[0].pids,
    }
}

/// Whether some sample of `samples` has the entity id `id`.
pub open spec fn id_in(samples: Seq<StatsView>, id: Seq<char>) -> bool {
    exists|i: int| 0 <= i < samples.len() && samples[i].id == id
}

/// The ids of `samples` not yet in `seen`, in order of first occurrence.
pub open spec fn ids_of(samples: Seq<StatsView>, seen: Set<Seq<char>>) -> Seq<Seq<char>>
    decreases samples.len(),
{
    if samples.len() == 0 {
        Seq::empty()
    } else if seen.contains(samples[0].id) {
        ids_of(samples.drop_first(), seen)
    } else {
        seq![samples[0].id] + ids_of(samples.drop_first(), seen.insert(samples[0].id))
    }
}

/// The distinct entity ids of `samples`, in order of first occurrence.
pub open spec fn distinct_ids(samples: Seq<StatsView>) -> Seq<Seq<char>> {
    ids_of(samples, Set::empty())
}

/// One averaged record per id, in the ids' order.
pub open spec fn aggregate_ids(samples: Seq<StatsView>, ids: Seq<Seq<char>>) -> Seq<StatsView> {
    ids.map_values(|id: Seq<char>| avg_of_group(group_of(samples, id)))
}

/// The aggregation of a window's samples: one averaged record per
/// distinct entity id, in order of first occurrence.
pub open spec fn aggregate_spec(samples: Seq<StatsView>) -> Seq<StatsView> {
    aggregate_ids(samples, distinct_ids(samples))
}

proof fn lemma_id_in_unfold(s: Seq<StatsView>, id: Seq<char>)
    requires
        s.len() > 0,
    ensures
        id_in(s, id) == (s[0].id == id || id_in(s.drop_first(), id)),
{
    if s[0].id == id {
        assert(id_in(s, id));
    }
    if id_in(s.drop_first(), id) {
        let i = choose|i: int| 0 <= i < s.drop_first().len() && s.drop_first()[i].id == id;
        assert(s[i + 1].id == id);
        assert(id_in(s, id));
    }
    if id_in(s, id) && s[0].id != id {
        let i = choose|i: int| 0 <= i < s.len() && s[i].id == id;
        assert(i > 0);
        assert(s.drop_first()[i - 1].id == id);
        assert(id_in(s.drop_first(), id));
    }
}

proof fn lemma_ids_of_push(s: Seq<StatsView>, x: StatsView, seen: Set<Seq<char>>)
    ensures
        ids_of(s.push(x), seen) == ids_of(s, seen) + (if id_in(s, x.id) || seen.contains(x.id) {
            Seq::<Seq<char>>::empty()
        } else {
            seq![x.id]
        }),
    decreases s.len(),
{
    if s.len() == 0 {
        assert(s.push(x)[0] == x);
        assert(s.push(x).drop_first() =~= s);
        assert(!id_in(s, x.id));
        if seen.contains(x.id) {
            assert(ids_of(s.push(x), seen) == ids_of(s, seen));
            assert(ids_of(s, seen) + Seq::<Seq<char>>::empty() =~= ids_of(s, seen));
        } else {
            assert(ids_of(s.push(x), seen) == seq![x.id] + ids_of(s, seen.insert(x.id)));
            assert(seq![x.id] + Seq::<Seq<char>>::empty() =~= seq![x.id]);
            assert(ids_of(s, seen) + seq![x.id] =~= seq![x.id]);
        }
    } else {
        let h = s[0];
        assert(s.push(x)[0] == h);
        assert(s.push(x).drop_first() =~= s.drop_first().push(x));
        lemma_id_in_unfold(s, x.id);
        if seen.contains(h.id) {
            lemma_ids_of_push(s.drop_first(), x, seen);
        } else {
            lemma_ids_of_push(s.drop_first(), x, seen.insert(h.id));
            let tail_cond = (if id_in(s.drop_first(), x.id) || seen.insert(h.id).contains(x.id) {
                Seq::<Seq<char>>::empty()
            } else {
                seq![x.id]
            });
            assert(seq![h.id] + (ids_of(s.drop_first(), seen.insert(h.id)) + tail_cond) =~= (
            seq![h.id] + ids_of(s.drop_first(), seen.insert(h.id))) + tail_cond);
        }
    }
}

/// Averages the group of the sample at `k`, which must be that id's
/// first occurrence.
fn average_group(samples: &Vec<Stats>, k: usize) -> (r: Stats)
    requires
        k < samples@.len(),
        forall|j: int|
            0 <= j < k ==> (#[trigger] samples.deep_view()[j]).id != samples.deep_view()[
                k as int
            ].id,
    ensures
        r@ == avg_of_group(group_of(samples.deep_view(), samples.deep_view()[k as int].id)),
{
    let ghost svs = samples.deep_view();
    let ghost idv = svs[k as int].id;
    let n = samples.len();
    let mut t: usize = 0;
    let mut cnt: usize = 0;
    let mut first: usize = 0;
    let mut have_first: bool = false;
    let mut s_bi: u128 = 0;
    let mut s_bo: u128 = 0;
    let mut s_cpu: u128 = 0;
    let mut s_mp: u128 = 0;
    let mut s_mu: u128 = 0;
    let mut s_ml: u128 = 0;
    let mut s_ni: u128 = 0;
    let mut s_no: u128 = 0;
    proof {
        assert(group_of(svs.take(0), idv) =~= Seq::<StatsView>::empty()) by {
            reveal(Seq::<StatsView>::filter);
            assert(svs.take(0) =~= Seq::<StatsView>::empty());
        }
    }
    while t < n
        invariant
            0 <= t <= n,
            n == svs.len(),
            k < n,
            svs == samples.deep_view(),
            idv == svs[k as int].id,
            cnt as int == group_of(svs.take(t as int), idv).len(),
            cnt <= t,
            t > k ==> have_first,
            have_first ==> first < t && group_of(svs.take(t as int), idv).len() >= 1 && svs[
                first as int
            ] == group_of(svs.take(t as int), idv)[0],
            !have_first ==> group_of(svs.take(t as int), idv).len() == 0,
            s_bi as int == sum_block_in(group_of(svs.take(t as int), idv)),
            s_bo as int == sum_block_out(group_of(svs.take(t as int), idv)),
            s_cpu as int == sum_cpu(group_of(svs.take(t as int), idv)),
            s_mp as int == sum_mem_perc(group_of(svs.take(t as int), idv)),
            s_mu as int == sum_mem_usage(group_of(svs.take(t as int), idv)),
            s_ml as int == sum_mem_limit(group_of(svs.take(t as int), idv)),
            s_ni as int == sum_net_in(group_of(svs.take(t as int), idv)),
            s_no as int == sum_net_out(group_of(svs.take(t as int), idv)),
            s_bi as int <= cnt as int * 0xFFFF_FFFF_FFFF_FFFF,
            s_bo as int <= cnt as int * 0xFFFF_FFFF_FFFF_FFFF,
            s_cpu as int <= cnt as int * 0xFFFF_FFFF_FFFF_FFFF,
            s_mp as int <= cnt as int * 0xFFFF_FFFF_FFFF_FFFF,
            s_mu as int <= cnt as int * 0xFFFF_FFFF_FFFF_FFFF,
            s_ml as int <= cnt as int * 0xFFFF_FFFF_FFFF_FFFF,
            s_ni as int <= cnt as int * 0xFFFF_FFFF_FFFF_FFFF,
            s_no as int <= cnt as int * 0xFFFF_FFFF_FFFF_FFFF,
        decreases n - t,
    {
        let ghost gp = group_of(svs.take(t as int), idv);
        proof {
            assert(svs.take(t + 1) =~= svs.take(t as int).push(svs[t as int]));
            lemma_group_push(svs.take(t as int), svs[t as int], idv);
            assert(svs[t as int] == samples@[t as int].deep_view());
            assert(svs[k as int] == samples@[k as int].deep_view());
        }
        if str_eq(samples[t].id.as_str(), samples[k].id.as_str()) {
            proof {
                assert(svs[t as int].id == idv);
                assert(group_of(svs.take(t + 1), idv) == gp.push(svs[t as int]));
                assert(gp.push(svs[t as int]).drop_last() =~= gp);
                assert(cnt + 1 <= 0xFFFF_FFFF_FFFF_FFFF);
                assert((cnt + 1) as int * 0xFFFF_FFFF_FFFF_FFFF >= cnt as int
                    * 0xFFFF_FFFF_FFFF_FFFF + 0xFFFF_FFFF_FFFF_FFFF) by (nonlinear_arith);
                assert(cnt as int * 0xFFFF_FFFF_FFFF_FFFF + 0xFFFF_FFFF_FFFF_FFFF
                    < 0xFFFF_FFFF_FFFF_FFFF_FFFF_FFFF_FFFF_FFFF) by (nonlinear_arith)
                    requires
                        0 <= cnt as int <= 0xFFFF_FFFF_FFFF_FFFE,
                ;
            }
            s_bi = s_bi + (samples[t].block_io.input as u128);
            s_bo = s_bo + (samples[t].block_io.output as u128);
            s_cpu = s_cpu + (samples[t].cpu_perc.0 as u128);
            s_mp = s_mp + (samples[t].mem_perc.0 as u128);
            s_mu = s_mu + (samples[t].mem_usage.usage as u128);
            s_ml = s_ml + (samples[t].mem_usage.limit as u128);
            s_ni = s_ni + (samples[t].net_io.input as u128);
            s_no = s_no + (samples[t].net_io.output as u128);
            cnt = cnt + 1;
            if !have_first {
                first = t;
                have_first = true;
            }
        } else {
            proof {
                assert(group_of(svs.take(t + 1), idv) == gp);
            }
        }
        t += 1;
    }
    proof {
        assert(svs.take(n as int) =~= svs);
        assert(have_first);
        assert(cnt >= 1);
    }
    let c = cnt as u128;
    proof {
        lemma_avg_in_range(s_bi as int, cnt as int);
        lemma_avg_in_range(s_bo as int, cnt as int);
        lemma_avg_in_range(s_cpu as int, cnt as int);
        lemma_avg_in_range(s_mp as int, cnt as int);
        lemma_avg_in_range(s_mu as int, cnt as int);
        lemma_avg_in_range(s_ml as int, cnt as int);
        lemma_avg_in_range(s_ni as int, cnt as int);
        lemma_avg_in_range(s_no as int, cnt as int);
    }
    let r = Stats {
        block_io: StatsIO { input: (s_bi / c) as u64, output: (s_bo / c) as u64 },
        cpu_perc: StatsPercentage((s_cpu / c) as u64),
        container: samples[first].container.clone(),
        id: samples[first].id.clone(),
        mem_perc: StatsPercentage((s_mp / c) as u64),
        mem_usage: StatsUsage { usage: (s_mu / c) as u64, limit: (s_ml / c) as u64 },
        name: samples[first].name.clone(),
        net_io: StatsIO { input: (s_ni / c) as u64, output: (s_no / c) as u64 },
        pids: samples[first].pids.clone(),
    };
    proof {
        let g = group_of(svs, idv);
        assert(svs[first as int] == g[0]);
        assert(svs[first as int] == samples@[first as int].deep_view());
    }
    r
}

proof fn lemma_avg_in_range(s: int, c: int)
    requires
        0 <= s,
        1 <= c,
        s <= c * 0xFFFF_FFFF_FFFF_FFFF,
    ensures
        0 <= s / c <= 0xFFFF_FFFF_FFFF_FFFF,
{
    lemma_div_is_ordered(0, s, c);
    lemma_div_is_ordered(s, c * 0xFFFF_FFFF_FFFF_FFFF, c);
    lemma_div_multiples_vanish(0xFFFF_FFFF_FFFF_FFFF, c);
    assert(0int / c == 0) by (nonlinear_arith)
        requires
            1 <= c,
    ;
}

/// What the aggregator does with one window's collected lines: an empty
/// window only arises at end of stream and stops the sequence; a window
/// with a malformed line aborts with that failure; otherwise one batch of
/// averaged records is emitted.
pub enum WindowVerdict {
    Stop,
    Batch(Vec<Stats>),
    Abort(ComposeError),
}

/// Decode every collected line of a window, in order, failing fast.
fn decode_window_lines(lines: &Vec<String>) -> (r: Result<Vec<Stats>, ComposeError>)
    ensures
        (match r {
            Ok(v) => decode_window_spec(lines.deep_view()) == Ok::<Seq<StatsView>, ErrorView>(
                v.deep_view(),
            ),
            Err(e) => decode_window_spec(lines.deep_view()) == Err::<Seq<StatsView>, ErrorView>(
                e@,
            ),
        }),
{
    let ghost lv = lines.deep_view();
    let mut samples: Vec<Stats> = Vec::new();
    let mut i: usize = 0;
    proof {
        assert(lv.skip(0) =~= lv);
        let rr = decode_window_spec(lv);
        if rr is Ok {
            assert(samples.deep_view() + rr->Ok_0 =~= rr->Ok_0);
        }
    }
    while i < lines.len()
        invariant
            0 <= i <= lines@.len(),
            lv == lines.deep_view(),
            lines@.len() == lv.len(),
            (match decode_window_spec(lv.skip(i as int)) {
                Ok(rest) => decode_window_spec(lv) == Ok::<Seq<StatsView>, ErrorView>(
                    samples.deep_view() + rest,
                ),
                Err(e) => decode_window_spec(lv) == Err::<Seq<StatsView>, ErrorView>(e),
            }),
        decreases lines@.len() - i,
    {
        proof {
            assert(lv[i as int] == lines@[i as int].deep_view());
            assert(lv.skip(i as int)[0] == lv[i as int]);
            assert(lv.skip(i as int).drop_first() =~= lv.skip(i + 1));
        }
        match Stats::from_json_line(lines[i].as_str()) {
            Ok(s) => {
                let ghost old_dv = samples.deep_view();
                let ghost sv = s@;
                samples.push(s);
                proof {
                    assert(samples.deep_view() =~= old_dv.push(sv));
                    let rr = decode_window_spec(lv.skip(i + 1));
                    if rr is Ok {
                        assert((old_dv + (seq![sv] + rr->Ok_0)) =~= (old_dv.push(sv) + rr->Ok_0));
                    }
                }
            },
            Err(e) => {
                return Err(e);
            },
        }
        i += 1;
    }
    proof {
        assert(lv.skip(lv.len() as int) =~= Seq::<Seq<char>>::empty());
        assert(samples.deep_view() + Seq::<StatsView>::empty() =~= samples.deep_view());
    }
    Ok(samples)
}

/// One averaged record per distinct entity id, in first-occurrence order.
fn aggregate_samples(samples: &Vec<Stats>) -> (r: Vec<Stats>)
    ensures
        r.deep_view() == aggregate_spec(samples.deep_view()),
{
    let ghost svs = samples.deep_view();
    let mut result: Vec<Stats> = Vec::new();
    let mut k: usize = 0;
    proof {
        assert(svs.take(0) =~= Seq::<StatsView>::empty());
        assert(distinct_ids(svs.take(0)) =~= Seq::<Seq<char>>::empty());
        assert(result.deep_view() =~= aggregate_ids(svs, distinct_ids(svs.take(0))));
    }
    while k < samples.len()
        invariant
            0 <= k <= samples@.len(),
            svs == samples.deep_view(),
            samples@.len() == svs.len(),
            result.deep_view() == aggregate_ids(svs, distinct_ids(svs.take(k as int))),
        decreases samples@.len() - k,
    {
        let mut dup = false;
        let mut j: usize = 0;
        while j < k && !dup
            invariant
                0 <= j <= k < samples@.len(),
                svs == samples.deep_view(),
                samples@.len() == svs.len(),
                !dup ==> forall|j2: int|
                    0 <= j2 < j ==> (#[trigger] svs[j2]).id != svs[k as int].id,
                dup ==> id_in(svs.take(k as int), svs[k as int].id),
            decreases k - j,
        {
            proof {
                assert(svs[j as int] == samples@[j as int].deep_view());
                assert(svs[k as int] == samples@[k as int].deep_view());
            }
            if str_eq(samples[j].id.as_str(), samples[k].id.as_str()) {
                proof {
                    assert(svs.take(k as int)[j as int] == svs[j as int]);
                }
                dup = true;
                j = k;
            } else {
                j += 1;
            }
        }
        let ghost ids_k = distinct_ids(svs.take(k as int));
        proof {
            assert(svs.take(k + 1) =~= svs.take(k as int).push(svs[k as int]));
            lemma_ids_of_push(svs.take(k as int), svs[k as int], Set::empty());
            if !dup {
                assert(j == k);
                assert forall|j2: int|
                    0 <= j2 < svs.take(k as int).len() implies (#[trigger] svs.take(
                    k as int,
                )[j2]).id != svs[k as int].id by {
                    assert(svs.take(k as int)[j2] == svs[j2]);
                }
                assert(!id_in(svs.take(k as int), svs[k as int].id));
            }
        }
        if dup {
            proof {
                assert(distinct_ids(svs.take(k + 1)) == ids_k + Seq::<Seq<char>>::empty());
                assert(ids_k + Seq::<Seq<char>>::empty() =~= ids_k);
            }
        } else {
            let rec = average_group(&samples, k);
            let ghost old_dv = result.deep_view();
            result.push(rec);
            proof {
                assert(result.deep_view() =~= old_dv.push(rec@));
                assert(distinct_ids(svs.take(k + 1)) == ids_k + seq![svs[k as int].id]);
                assert(ids_k + seq![svs[k as int].id] =~= ids_k.push(svs[k as int].id));
                assert(aggregate_ids(svs, ids_k.push(svs[k as int].id)) =~= aggregate_ids(
                    svs,
                    ids_k,
                ).push(avg_of_group(group_of(svs, svs[k as int].id))));
            }
        }
        k += 1;
    }
    proof {
        assert(svs.take(samples@.len() as int) =~= svs);
    }
    result
}

/// Decode and aggregate the lines collected for one window, as
/// `decode_window_spec` and `aggregate_spec` describe.
pub fn process_window(lines: &Vec<String>) -> (v: WindowVerdict)
    ensures
        lines@.len() == 0 <==> v is Stop,
        lines@.len() > 0 ==> (match decode_window_spec(lines.deep_view()) {
            Ok(samples) => v matches WindowVerdict::Batch(b) && b.deep_view() == aggregate_spec(
                samples,
            ),
            Err(e) => v matches WindowVerdict::Abort(err) && err@ == e,
        }),
{
    if lines.len() == 0 {
        return WindowVerdict::Stop;
    }
    match decode_window_lines(lines) {
        Ok(samples) => WindowVerdict::Batch(aggregate_samples(&samples)),
        Err(e) => WindowVerdict::Abort(e),
    }
}

proof fn lemma_ids_of_seen(s: Seq<StatsView>, seen: Set<Seq<char>>)
    requires
        forall|i: int| 0 <= i < s.len() ==> seen.contains((#[trigger] s[i]).id),
    ensures
        ids_of(s, seen) == Seq::<Seq<char>>::empty(),
    decreases s.len(),
{
    if s.len() > 0 {
        assert forall|i: int|
            0 <= i < s.drop_first().len() implies seen.contains(
            (#[trigger] s.drop_first()[i]).id,
        ) by {
            assert(s.drop_first()[i] == s[i + 1]);
        }
        lemma_ids_of_seen(s.drop_first(), seen);
    }
}

proof fn lemma_group_const(s: Seq<StatsView>, m: StatsView)
    requires
        forall|i: int| 0 <= i < s.len() ==> s[i] == m,
    ensures
        group_of(s, m.id) == s,
    decreases s.len(),
{
    reveal(Seq::<StatsView>::filter);
    if s.len() > 0 {
        assert forall|i: int| 0 <= i < s.drop_last().len() implies s.drop_last()[i] == m by {
            assert(s.drop_last()[i] == s[i]);
        }
        lemma_group_const(s.drop_last(), m);
        assert(s.last() == m);
        assert(group_of(s, m.id) == s.drop_last().push(s.last()));
        assert(s.drop_last().push(s.last()) =~= s);
    }
}

proof fn lemma_sums_const(g: Seq<StatsView>, m: StatsView)
    requires
        forall|i: int| 0 <= i < g.len() ==> g[i] == m,
    ensures
        sum_block_in(g) == g.len() * m.block_io.input,
        sum_block_out(g) == g.len() * m.block_io.output,
        sum_cpu(g) == g.len() * m.cpu_perc.0,
        sum_mem_perc(g) == g.len() * m.mem_perc.0,
        sum_mem_usage(g) == g.len() * m.mem_usage.usage,
        sum_mem_limit(g) == g.len() * m.mem_usage.limit,
        sum_net_in(g) == g.len() * m.net_io.input,
        sum_net_out(g) == g.len() * m.net_io.output,
    decreases g.len(),
{
    if g.len() == 0 {
    } else {
        assert forall|i: int| 0 <= i < g.drop_last().len() implies g.drop_last()[i] == m by {
            assert(g.drop_last()[i] == g[i]);
        }
        lemma_sums_const(g.drop_last(), m);
        assert(g.last() == m);
        let l = g.len() as int;
        assert((l - 1) * (m.block_io.input as int) + m.block_io.input == l * (
        m.block_io.input as int)) by (nonlinear_arith);
        assert((l - 1) * (m.block_io.output as int) + m.block_io.output == l * (
        m.block_io.output as int)) by (nonlinear_arith);
        assert((l - 1) * (m.cpu_perc.0 as int) + m.cpu_perc.0 == l * (m.cpu_perc.0 as int))
            by (nonlinear_arith);
        assert((l - 1) * (m.mem_perc.0 as int) + m.mem_perc.0 == l * (m.mem_perc.0 as int))
            by (nonlinear_arith);
        assert((l - 1) * (m.mem_usage.usage as int) + m.mem_usage.usage == l * (
        m.mem_usage.usage as int)) by (nonlinear_arith);
        assert((l - 1) * (m.mem_usage.limit as int) + m.mem_usage.limit == l * (
        m.mem_usage.limit as int)) by (nonlinear_arith);
        assert((l - 1) * (m.net_io.input as int) + m.net_io.input == l * (m.net_io.input as int))
            by (nonlinear_arith);
        assert((l - 1) * (m.net_io.output as int) + m.net_io.output == l * (
        m.net_io.output as int)) by (nonlinear_arith);
    }
}

/// Law: a window holding any number of identical samples for one entity
/// aggregates to a single record that is numerically equal to the sample
/// itself.
pub proof fn lemma_aggregate_identical(samples: Seq<StatsView>, m: StatsView)
    requires
        samples.len() >= 1,
        forall|i: int| 0 <= i < samples.len() ==> samples[i] == m,
    ensures
        aggregate_spec(samples) == seq![m],
{
    let id = m.id;
    assert(samples[0] == m);
    assert forall|i: int|
        0 <= i < samples.drop_first().len() implies Set::empty().insert(id).contains(
        (#[trigger] samples.drop_first()[i]).id,
    ) by {
        assert(samples.drop_first()[i] == samples[i + 1]);
    }
    lemma_ids_of_seen(samples.drop_first(), Set::empty().insert(id));
    assert(distinct_ids(samples) == seq![id] + Seq::<Seq<char>>::empty());
    assert(seq![id] + Seq::<Seq<char>>::empty() =~= seq![id]);
    lemma_group_const(samples, m);
    lemma_sums_const(samples, m);
    let n = samples.len() as int;
    lemma_div_multiples_vanish(m.block_io.input as int, n);
    lemma_div_multiples_vanish(m.block_io.output as int, n);
    lemma_div_multiples_vanish(m.cpu_perc.0 as int, n);
    lemma_div_multiples_vanish(m.mem_perc.0 as int, n);
    lemma_div_multiples_vanish(m.mem_usage.usage as int, n);
    lemma_div_multiples_vanish(m.mem_usage.limit as int, n);
    lemma_div_multiples_vanish(m.net_io.input as int, n);
    lemma_div_multiples_vanish(m.net_io.output as int, n);
    assert(avg_of_group(group_of(samples, id)) == m);
    assert(aggregate_spec(samples) =~= seq![m]);
}

} // verus!
