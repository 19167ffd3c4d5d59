//! Entity records of the listing output: port mappings, lifecycle status,
//! and the record itself, together with the decoders that read them out of
//! raw cells.

use vstd::prelude::*;

use crate::error::{ComposeError, ErrorView};
use crate::text::{
    chars_to_string, find_char, find_char_vec, find_seq, find_seq_vec, join_from, join_spec,
    lemma_char_vec_deep_view, lemma_find_char_at, lemma_find_seq_at, lemma_split_char_min_len,
    lower_seq, lower_vec, parse_dec_bounded, parse_dec_spec, rfind_char, rfind_char_vec,
    split_char_spec, split_char_vec, str_chars, subvec, trim_pair, trim_pair_vec, vec_eq_str,
};

verus! {

/// Spec view of an `Option<String>`.
pub open spec fn opt_str_view(o: Option<String>) -> Option<Seq<char>> {
    match o {
        Some(s) => Some(s@),
        None => None,
    }
}

/// One published (or unpublished) port of an entity.
#[derive(Debug, Clone)]
pub struct PortMapping {
    pub host_ip: Option<String>,
    pub host_port: Option<u16>,
    pub container_port: u16,
    pub protocol: String,
}

/// Mathematical mirror of `PortMapping`.
pub struct PortMappingView {
    pub host_ip: Option<Seq<char>>,
    pub host_port: Option<u16>,
    pub container_port: u16,
    pub protocol: Seq<char>,
}

impl View for PortMapping {
    type V = PortMappingView;

    open spec fn view(&self) -> PortMappingView {
        PortMappingView {
            host_ip: opt_str_view(self.host_ip),
            host_port: self.host_port,
            container_port: self.container_port,
            protocol: self.protocol@,
        }
    }
}

impl DeepView for PortMapping {
    type V = PortMappingView;

    open spec fn deep_view(&self) -> PortMappingView {
        self.view()
    }
}

/// The mappings of an unpublished contiguous range, one per port.
pub open spec fn port_range_views(st: int, en: int, proto: Seq<char>) -> Seq<PortMappingView> {
    Seq::new(
        if st <= en {
            (en - st + 1) as nat
        } else {
            0
        },
        |i: int|
            (PortMappingView {
                host_ip: None,
                host_port: None,
                container_port: (st + i) as u16,
                protocol: proto,
            }),
    )
}

/// Decoding of the published form `host:port->port/proto`, after the
/// protocol was split off. `a` is the position of `->` within `ports`.
pub open spec fn decode_published_spec(ports: Seq<char>, proto: Seq<char>, a: int) -> Result<
    Seq<PortMappingView>,
    ErrorView,
> {
    let host = ports.take(a);
    let cp_txt = ports.skip(a + 2);
    match parse_dec_spec(cp_txt, 65535) {
        None => Err(ErrorView::InvalidPortMapping(cp_txt)),
        Some(cp) => match rfind_char(host, ':') {
            None => Err(ErrorView::InvalidPortMapping(host)),
            Some(c) => {
                let ip = host.take(c);
                let hp_txt = host.skip(c + 1);
                match parse_dec_spec(hp_txt, 65535) {
                    None => Err(ErrorView::InvalidPortMapping(hp_txt)),
                    Some(hp) => Ok(
                        seq![
                            (PortMappingView {
                                host_ip: Some(ip),
                                host_port: Some(hp as u16),
                                container_port: cp as u16,
                                protocol: proto,
                            }),
                        ],
                    ),
                }
            },
        },
    }
}

/// Decoding of the unpublished range form `start-end/proto`. `d` is the
/// position of the first `-` within `ports`.
pub open spec fn decode_range_spec(ports: Seq<char>, proto: Seq<char>, d: int) -> Result<
    Seq<PortMappingView>,
    ErrorView,
> {
    let st_txt = ports.take(d);
    let en_txt = ports.skip(d + 1);
    match parse_dec_spec(st_txt, 65535) {
        None => Err(ErrorView::InvalidPortMapping(st_txt)),
        Some(st) => match parse_dec_spec(en_txt, 65535) {
            None => Err(ErrorView::InvalidPortMapping(en_txt)),
            Some(en) => Ok(port_range_views(st, en, proto)),
        },
    }
}

/// Decoding of one comma-separated port clause. The protocol is everything
/// after the last `/` (its absence is a failure). A clause with `->`
/// publishes one container port at `host-ip:host-port`; without it, a
/// dash makes an inclusive range of unpublished ports (empty when the
/// start exceeds the end) and otherwise the clause is a single unpublished
/// port. A failure names the offending segment.
pub open spec fn decode_port_clause_spec(s: Seq<char>) -> Result<Seq<PortMappingView>, ErrorView> {
    match rfind_char(s, '/') {
        None => Err(ErrorView::InvalidPortMapping(s)),
        Some(k) => {
            let ports = s.take(k);
            let proto = s.skip(k + 1);
            match find_seq(ports, "->"@) {
                Some(a) => decode_published_spec(ports, proto, a),
                None => match find_char(ports, '-') {
                    Some(d) => decode_range_spec(ports, proto, d),
                    None => match parse_dec_spec(ports, 65535) {
                        Some(v) => Ok(
                            seq![
                                (PortMappingView {
                                    host_ip: None,
                                    host_port: None,
                                    container_port: v as u16,
                                    protocol: proto,
                                }),
                            ],
                        ),
                        None => Err(ErrorView::InvalidPortMapping(ports)),
                    },
                },
            }
        },
    }
}

impl PortMapping {
    pub fn new(
        host_ip: Option<String>,
        host_port: Option<u16>,
        container_port: u16,
        protocol: String,
    ) -> (r: Self)
        ensures
            r@.host_ip == opt_str_view(host_ip),
            r@.host_port == host_port,
            r@.container_port == container_port,
            r@.protocol == protocol@,
    {
        Self { host_ip, host_port, container_port, protocol }
    }

    /// Decode one port clause into its mappings, as
    /// `decode_port_clause_spec` describes.
    pub fn from_string(port_string: &str) -> (r: Result<Vec<PortMapping>, ComposeError>)
        ensures
            (match r {
                Ok(v) => decode_port_clause_spec(port_string@) == Ok::<
                    Seq<PortMappingView>,
                    ErrorView,
                >(v.deep_view()),
                Err(e) => decode_port_clause_spec(port_string@) == Err::<
                    Seq<PortMappingView>,
                    ErrorView,
                >(e@),
            }),
    {
        let s = str_chars(port_string);
        let n = s.len();
        let k = match rfind_char_vec(&s, '/') {
            Some(k) => k,
            None => {
                return Err(ComposeError::InvalidPortMapping(chars_to_string(&s)));
            },
        };
        let ports = subvec(&s, 0, k);
        let proto = subvec(&s, k + 1, n);
        proof {
            assert(ports@ =~= s@.take(k as int));
            assert(proto@ =~= s@.skip(k + 1));
        }
        let arrow = str_chars("->");
        proof {
            reveal_strlit("->");
        }
        match find_seq_vec(&ports, &arrow) {
            Some(a) => {
                let host = subvec(&ports, 0, a);
                let cp_txt = subvec(&ports, a + 2, ports.len());
                proof {
                    assert(host@ =~= ports@.take(a as int));
                    assert(cp_txt@ =~= ports@.skip(a + 2));
                }
                let cp = match parse_dec_bounded(&cp_txt, 65535) {
                    Some(v) => v,
                    None => {
                        return Err(ComposeError::InvalidPortMapping(chars_to_string(&cp_txt)));
                    },
                };
                let c = match rfind_char_vec(&host, ':') {
                    Some(c) => c,
                    None => {
                        return Err(ComposeError::InvalidPortMapping(chars_to_string(&host)));
                    },
                };
                let ip = subvec(&host, 0, c);
                let hp_txt = subvec(&host, c + 1, host.len());
                proof {
                    assert(ip@ =~= host@.take(c as int));
                    assert(hp_txt@ =~= host@.skip(c + 1));
                }
                let hp = match parse_dec_bounded(&hp_txt, 65535) {
                    Some(v) => v,
                    None => {
                        return Err(ComposeError::InvalidPortMapping(chars_to_string(&hp_txt)));
                    },
                };
                let pm = PortMapping::new(
                    Some(chars_to_string(&ip)),
                    Some(hp as u16),
                    cp as u16,
                    chars_to_string(&proto),
                );
                let mut out: Vec<PortMapping> = Vec::new();
                out.push(pm);
                proof {
                    assert(out.deep_view() =~= decode_published_spec(
                        ports@,
                        proto@,
                        a as int,
                    )->Ok_0);
                }
                Ok(out)
            },
            None => {
                match find_char_vec(&ports, '-') {
                    Some(d) => {
                        let st_txt = subvec(&ports, 0, d);
                        let en_txt = subvec(&ports, d + 1, ports.len());
                        proof {
                            assert(st_txt@ =~= ports@.take(d as int));
                            assert(en_txt@ =~= ports@.skip(d + 1));
                        }
                        let st = match parse_dec_bounded(&st_txt, 65535) {
                            Some(v) => v,
                            None => {
                                return Err(
                                    ComposeError::InvalidPortMapping(chars_to_string(&st_txt)),
                                );
                            },
                        };
                        let en = match parse_dec_bounded(&en_txt, 65535) {
                            Some(v) => v,
                            None => {
                                return Err(
                                    ComposeError::InvalidPortMapping(chars_to_string(&en_txt)),
                                );
                            },
                        };
                        let mut out: Vec<PortMapping> = Vec::new();
                        if st <= en {
                            let mut p: u32 = st;
                            while p <= en
                                invariant
                                    st <= p <= en + 1,
                                    en <= 65535,
                                    out.deep_view() =~= port_range_views(
                                        st as int,
                                        en as int,
                                        proto@,
                                    ).take(p - st),
                                decreases en + 1 - p,
                            {
                                out.push(
                                    PortMapping::new(None, None, p as u16, chars_to_string(&proto)),
                                );
                                proof {
                                    assert(port_range_views(st as int, en as int, proto@).take(
                                        p + 1 - st,
                                    ) =~= port_range_views(st as int, en as int, proto@).take(
                                        p - st,
                                    ).push(
                                        port_range_views(st as int, en as int, proto@)[p - st],
                                    ));
                                }
                                p += 1;
                            }
                        }
                        proof {
                            let full = port_range_views(st as int, en as int, proto@);
                            assert(full.take(full.len() as int) =~= full);
                            if st > en {
                                assert(out.deep_view() =~= full);
                            }
                        }
                        Ok(out)
                    },
                    None => {
                        let cp = match parse_dec_bounded(&ports, 65535) {
                            Some(v) => v,
                            None => {
                                return Err(
                                    ComposeError::InvalidPortMapping(chars_to_string(&ports)),
                                );
                            },
                        };
                        let pm = PortMapping::new(None, None, cp as u16, chars_to_string(&proto));
                        let mut out: Vec<PortMapping> = Vec::new();
                        out.push(pm);
                        proof {
                            assert(out.deep_view() =~= decode_port_clause_spec(
                                port_string@,
                            )->Ok_0);
                        }
                        Ok(out)
                    },
                }
            },
        }
    }
}

/// The closed set of lifecycle tags.
#[derive(Debug, Clone, Copy, PartialEq, Eq, Structural)]
pub enum Status {
    Up,
    Down,
    Restarting,
    Paused,
    Removing,
    Exited,
    Dead,
}

/// Which tag a (whitespace-free) token denotes, compared without regard to
/// ASCII case; `None` for an unrecognised token.
pub open spec fn status_tag_of(token: Seq<char>) -> Option<Status> {
    let t = lower_seq(token);
    if t == "up"@ {
        Some(Status::Up)
    } else if t == "down"@ {
        Some(Status::Down)
    } else if t == "restarting"@ {
        Some(Status::Restarting)
    } else if t == "paused"@ {
        Some(Status::Paused)
    } else if t == "removing"@ {
        Some(Status::Removing)
    } else if t == "exited"@ {
        Some(Status::Exited)
    } else if t == "dead"@ {
        Some(Status::Dead)
    } else {
        None
    }
}

pub(crate) fn status_tag_vec(token: &Vec<char>) -> (r: Option<Status>)
    ensures
        r == status_tag_of(token@),
{
    let low = lower_vec(token);
    if vec_eq_str(&low, "up") {
        Some(Status::Up)
    } else if vec_eq_str(&low, "down") {
        Some(Status::Down)
    } else if vec_eq_str(&low, "restarting") {
        Some(Status::Restarting)
    } else if vec_eq_str(&low, "paused") {
        Some(Status::Paused)
    } else if vec_eq_str(&low, "removing") {
        Some(Status::Removing)
    } else if vec_eq_str(&low, "exited") {
        Some(Status::Exited)
    } else if vec_eq_str(&low, "dead") {
        Some(Status::Dead)
    } else {
        None
    }
}

impl Status {
    /// Decode a status tag token; an unrecognised token is a decode
    /// failure, not a panic.
    pub fn from_string(status: &str) -> (r: Result<Status, ComposeError>)
        ensures
            (match r {
                Ok(t) => status_tag_of(status@) == Some(t),
                Err(e) => status_tag_of(status@) is None && e@ == ErrorView::InvalidStatus(
                    status@,
                ),
            }),
    {
        let v = str_chars(status);
        match status_tag_vec(&v) {
            Some(t) => Ok(t),
            None => Err(ComposeError::InvalidStatus(chars_to_string(&v))),
        }
    }
}

/// Structured lifecycle status: the tag, an opaque "since" display text,
/// and the exit code when the raw text carries one in parentheses.
#[derive(Debug, Clone)]
pub struct ContainerStatus {
    pub status: Status,
    pub since: String,
    pub exit_code: Option<u8>,
}

/// Mathematical mirror of `ContainerStatus`.
pub struct ContainerStatusView {
    pub status: Status,
    pub since: Seq<char>,
    pub exit_code: Option<u8>,
}

impl View for ContainerStatus {
    type V = ContainerStatusView;

    open spec fn view(&self) -> ContainerStatusView {
        ContainerStatusView {
            status: self.status,
            since: self.since@,
            exit_code: self.exit_code,
        }
    }
}

impl DeepView for ContainerStatus {
    type V = ContainerStatusView;

    open spec fn deep_view(&self) -> ContainerStatusView {
        self.view()
    }
}

/// Decoding of a raw status cell. The first space-delimited token is the
/// tag (unknown tags fail). When the cell contains ` (`, the second token
/// stripped of parentheses is the exit code where numeric, and the "since"
/// text is the remaining tokens rejoined; otherwise all tokens after the
/// first are the "since" text and there is no exit code.
pub open spec fn decode_status_spec(s: Seq<char>) -> Result<ContainerStatusView, ErrorView> {
    let parts = split_char_spec(s, ' ');
    match status_tag_of(parts[0]) {
        None => Err(ErrorView::InvalidStatus(s)),
        Some(tag) => {
            if contains_code(s) {
                Ok(
                    ContainerStatusView {
                        status: tag,
                        since: join_spec(parts.skip(2), ' '),
                        exit_code: (match parse_dec_spec(
                            trim_pair(parts[1], '(', ')'),
                            255,
                        ) {
                            Some(v) => Some(v as u8),
                            None => None,
                        }),
                    },
                )
            } else {
                Ok(
                    ContainerStatusView {
                        status: tag,
                        since: join_spec(parts.skip(1), ' '),
                        exit_code: None,
                    },
                )
            }
        },
    }
}

/// Whether the raw status cell carries a parenthesised exit code.
pub open spec fn contains_code(s: Seq<char>) -> bool {
    find_seq(s, " ("@) is Some
}

impl ContainerStatus {
    pub fn new(status: Status, since: String, exit_code: Option<u8>) -> (r: Self)
        ensures
            r@.status == status,
            r@.since == since@,
            r@.exit_code == exit_code,
    {
        Self { status, since, exit_code }
    }

    /// Decode a raw status cell, as `decode_status_spec` describes.
    pub fn from_string(status: &str) -> (r: Result<ContainerStatus, ComposeError>)
        ensures
            (match r {
                Ok(cs) => decode_status_spec(status@) == Ok::<ContainerStatusView, ErrorView>(
                    cs@,
                ),
                Err(e) => decode_status_spec(status@) == Err::<ContainerStatusView, ErrorView>(
                    e@,
                ),
            }),
    {
        let s = str_chars(status);
        let parts = split_char_vec(&s, ' ');
        proof {
            lemma_split_char_min_len(s@, ' ');
            lemma_char_vec_deep_view(&parts[0]);
        }
        let tag = match status_tag_vec(&parts[0]) {
            Some(t) => t,
            None => {
                return Err(ComposeError::InvalidStatus(chars_to_string(&s)));
            },
        };
        let pat = str_chars(" (");
        proof {
            reveal_strlit(" (");
        }
        match find_seq_vec(&s, &pat) {
            Some(j) => {
                proof {
                    lemma_find_seq_at(s@, " ("@, 0);
                    assert(s@.subrange(j as int, j + 2)[0] == s@[j as int]);
                    assert(s@[j as int] == ' ');
                    lemma_find_char_at(s@, ' ', 0);
                    assert(find_char(s@, ' ') is Some);
                    assert(parts@.len() >= 2);
                    lemma_char_vec_deep_view(&parts[1]);
                }
                let code_txt = trim_pair_vec(&parts[1], '(', ')');
                let exit_code: Option<u8> = match parse_dec_bounded(&code_txt, 255) {
                    Some(v) => Some(v as u8),
                    None => None,
                };
                let since = join_from(&parts, 2, ' ');
                Ok(ContainerStatus::new(tag, chars_to_string(&since), exit_code))
            },
            None => {
                let since = join_from(&parts, 1, ' ');
                Ok(ContainerStatus::new(tag, chars_to_string(&since), None))
            },
        }
    }
}

/// One entity record of the listing output.
#[derive(Debug, Clone)]
pub struct Container {
    pub name: String,
    pub image: String,
    pub command: String,
    pub service: String,
    pub created: String,
    pub status: ContainerStatus,
    pub ports: Vec<PortMapping>,
}

/// Mathematical mirror of `Container`.
pub struct ContainerView {
    pub name: Seq<char>,
    pub image: Seq<char>,
    pub command: Seq<char>,
    pub service: Seq<char>,
    pub created: Seq<char>,
    pub status: ContainerStatusView,
    pub ports: Seq<PortMappingView>,
}

impl View for Container {
    type V = ContainerView;

    open spec fn view(&self) -> ContainerView {
        ContainerView {
            name: self.name@,
            image: self.image@,
            command: self.command@,
            service: self.service@,
            created: self.created@,
            status: self.status@,
            ports: self.ports.deep_view(),
        }
    }
}

impl DeepView for Container {
    type V = ContainerView;

    open spec fn deep_view(&self) -> ContainerView {
        self.view()
    }
}

} // verus!
