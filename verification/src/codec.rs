//! The persisted form of a topology: a line-oriented text document that
//! round-trips losslessly.  Every value is one line; strings are escaped
//! so that no line holds a newline; vectors are length-prefixed.  The
//! decoder is proved to invert the encoder on every topology.

use vstd::prelude::*;
use vstd::string::StrSliceExecFns;
use vstd::string::StringExecFns;
use crate::cable::{Cable, CableV, Endpoint, EndpointV, VdeConnProtocols};
use crate::namespace::{Namespace, NamespaceV, NSInterface, NSInterfaceV};
use crate::slirp::{Slirp, SlirpV};
use crate::strutil::{
    dec_of, dec_val, is_dec_seq, lemma_append_deep_view, lemma_dec_roundtrip, parse_u64,
    push_arg, split_char, split_on, str_eq, u64_to_dec,
};
use crate::switch::{Switch, SwitchV};
use crate::topology::{Topology, TopologyV};
use crate::vxvde::{VXVDE, VXVDEV};

verus! {

// ---------------------------------------------------------------------
// Escaping: a string becomes a single line.
// ---------------------------------------------------------------------
/// Escape backslashes and newlines so the result holds no newline.
pub open spec fn esc(s: Seq<char>) -> Seq<char>
    decreases s.len(),
{
    if s.len() == 0 {
        Seq::<char>::empty()
    } else {
        let head = if s[0] == '\\' {
            seq!['\\', '\\']
        } else if s[0] == '\n' {
            seq!['\\', 'n']
        } else {
            seq![s[0]]
        };
        head + esc(s.subrange(1, s.len() as int))
    }
}

/// Undo [`esc`]; fails on a dangling or unknown escape.
pub open spec fn unesc(s: Seq<char>) -> Option<Seq<char>>
    decreases s.len(),
{
    if s.len() == 0 {
        Some(Seq::<char>::empty())
    } else if s[0] == '\\' {
        if s.len() < 2 {
            None
        } else if s[1] == '\\' {
            match unesc(s.subrange(2, s.len() as int)) {
                Some(v) => Some(seq!['\\'] + v),
                None => None,
            }
        } else if s[1] == 'n' {
            match unesc(s.subrange(2, s.len() as int)) {
                Some(v) => Some(seq!['\n'] + v),
                None => None,
            }
        } else {
            None
        }
    } else {
        match unesc(s.subrange(1, s.len() as int)) {
            Some(v) => Some(seq![s[0]] + v),
            None => None,
        }
    }
}

/// An escaped string holds no newline.
pub proof fn lemma_esc_nl_free(s: Seq<char>)
    ensures
        forall|i: int| 0 <= i < esc(s).len() ==> esc(s)[i] != '\n',
    decreases s.len(),
{
    if s.len() > 0 {
        let tail = s.subrange(1, s.len() as int);
        lemma_esc_nl_free(tail);
        let head = if s[0] == '\\' {
            seq!['\\', '\\']
        } else if s[0] == '\n' {
            seq!['\\', 'n']
        } else {
            seq![s[0]]
        };
        assert(esc(s) == head + esc(tail));
        assert forall|i: int| 0 <= i < esc(s).len() implies esc(s)[i] != '\n' by {
            if i >= head.len() {
                assert(esc(s)[i] == esc(tail)[i - head.len()]);
            }
        }
    }
}

/// Unescaping inverts escaping.
pub proof fn lemma_esc_roundtrip(s: Seq<char>)
    ensures
        unesc(esc(s)) == Some(s),
    decreases s.len(),
{
    if s.len() == 0 {
        assert(esc(s) =~= Seq::<char>::empty());
    } else {
        let tail = s.subrange(1, s.len() as int);
        lemma_esc_roundtrip(tail);
        let e = esc(s);
        if s[0] == '\\' {
            assert(e =~= seq!['\\', '\\'] + esc(tail));
            assert(e.subrange(2, e.len() as int) =~= esc(tail));
            assert(seq!['\\'] + tail =~= s);
        } else if s[0] == '\n' {
            assert(e =~= seq!['\\', 'n'] + esc(tail));
            assert(e.subrange(2, e.len() as int) =~= esc(tail));
            assert(seq!['\n'] + tail =~= s);
        } else {
            assert(e =~= seq![s[0]] + esc(tail));
            assert(e[0] == s[0]);
            assert(e.subrange(1, e.len() as int) =~= esc(tail));
            assert(seq![s[0]] + tail =~= s);
        }
    }
}

/// Escape a string, executably.
pub fn esc_str(s: &str) -> (r: String)
    ensures
        r@ == esc(s@),
    decreases s@.len(),
{
    let n = s.unicode_len();
    if n == 0 {
        proof {
            assert(esc(s@) =~= Seq::<char>::empty());
        }
        return String::new();
    }
    let c = s.get_char(0);
    let rest = esc_str(s.substring_char(1, n));
    let mut out: String;
    if c == '\\' {
        out = String::from_str("\\\\");
        proof {
            reveal_strlit("\\\\");
            assert(out@ =~= seq!['\\', '\\']);
        }
    } else if c == '\n' {
        out = String::from_str("\\n");
        proof {
            reveal_strlit("\\n");
            assert(out@ =~= seq!['\\', 'n']);
        }
    } else {
        out = String::from_str(s.substring_char(0, 1));
        proof {
            assert(out@ =~= seq![s@[0]]);
        }
    }
    out.append(rest.as_str());
    proof {
        assert(out@ =~= esc(s@));
    }
    out
}

/// Unescape a line, executably.
pub fn unesc_str(s: &str) -> (r: Option<String>)
    ensures
        match r {
            Some(v) => unesc(s@) == Some(v@),
            None => unesc(s@) is None,
        },
    decreases s@.len(),
{
    let n = s.unicode_len();
    if n == 0 {
        proof {
            assert(unesc(s@) == Some(Seq::<char>::empty()));
        }
        return Some(String::new());
    }
    let c = s.get_char(0);
    if c == '\\' {
        if n < 2 {
            return None;
        }
        let c2 = s.get_char(1);
        if c2 == '\\' {
            match unesc_str(s.substring_char(2, n)) {
                Some(v) => {
                    let mut out = String::from_str("\\");
                    out.append(v.as_str());
                    proof {
                        reveal_strlit("\\");
                        assert(out@ =~= seq!['\\'] + v@);
                    }
                    Some(out)
                },
                None => None,
            }
        } else if c2 == 'n' {
            match unesc_str(s.substring_char(2, n)) {
                Some(v) => {
                    let mut out = String::from_str("\n");
                    out.append(v.as_str());
                    proof {
                        reveal_strlit("\n");
                        assert(out@ =~= seq!['\n'] + v@);
                    }
                    Some(out)
                },
                None => None,
            }
        } else {
            None
        }
    } else {
        match unesc_str(s.substring_char(1, n)) {
            Some(v) => {
                let mut out = String::from_str(s.substring_char(0, 1));
                out.append(v.as_str());
                proof {
                    assert(out@ =~= seq![s@[0]] + v@);
                }
                Some(out)
            },
            None => None,
        }
    }
}

// ---------------------------------------------------------------------
// Joining lines into a document and splitting them back.
// ---------------------------------------------------------------------
/// One line per token, each terminated by a newline.
pub open spec fn join_tokens(ts: Seq<Seq<char>>) -> Seq<char>
    decreases ts.len(),
{
    if ts.len() == 0 {
        Seq::<char>::empty()
    } else {
        ts[0] + seq!['\n'] + join_tokens(ts.subrange(1, ts.len() as int))
    }
}

/// No token holds a newline.
pub open spec fn tokens_nl_free(ts: Seq<Seq<char>>) -> bool {
    forall|i: int, j: int| 0 <= i < ts.len() && 0 <= j < ts[i].len() ==> ts[i][j] != '\n'
}

/// Splitting at a separator-free prefix peels exactly that prefix.
proof fn lemma_split_prefix(x: Seq<char>, y: Seq<char>, sep: char)
    requires
        forall|i: int| 0 <= i < x.len() ==> x[i] != sep,
    ensures
        split_on(x + seq![sep] + y, sep) == seq![x] + split_on(y, sep),
    decreases x.len(),
{
    let s = x + seq![sep] + y;
    if x.len() == 0 {
        assert(s[0] == sep);
        assert(s.subrange(1, s.len() as int) =~= y);
        assert(split_on(s, sep) == seq![Seq::<char>::empty()] + split_on(y, sep));
        assert(x =~= Seq::<char>::empty());
        assert(seq![Seq::<char>::empty()] + split_on(y, sep) =~= seq![x] + split_on(y, sep));
    } else {
        let xt = x.subrange(1, x.len() as int);
        lemma_split_prefix(xt, y, sep);
        assert(s[0] == x[0]);
        assert(s[0] != sep);
        assert(s.subrange(1, s.len() as int) =~= xt + seq![sep] + y);
        let rest = split_on(xt + seq![sep] + y, sep);
        assert(rest == seq![xt] + split_on(y, sep));
        crate::strutil::lemma_split_nonempty(y, sep);
        assert(rest[0] == xt);
        assert(split_on(s, sep) == rest.update(0, seq![s[0]] + rest[0]));
        assert(seq![x[0]] + xt =~= x);
        assert(rest.update(0, seq![s[0]] + rest[0]) =~= seq![x] + split_on(y, sep));
    }
}

/// Splitting a joined document recovers the tokens, plus the one empty
/// token after the final newline.
pub proof fn lemma_join_split(ts: Seq<Seq<char>>)
    requires
        tokens_nl_free(ts),
    ensures
        split_on(join_tokens(ts), '\n') == ts.push(Seq::<char>::empty()),
    decreases ts.len(),
{
    if ts.len() == 0 {
        assert(join_tokens(ts) =~= Seq::<char>::empty());
        assert(split_on(join_tokens(ts), '\n') == seq![Seq::<char>::empty()]);
        assert(seq![Seq::<char>::empty()] =~= ts.push(Seq::<char>::empty()));
    } else {
        let tail = ts.subrange(1, ts.len() as int);
        assert(tokens_nl_free(tail)) by {
            assert forall|i: int, j: int|
                0 <= i < tail.len() && 0 <= j < tail[i].len() implies #[trigger] tail[i][j]
                != '\n' by {
                assert(tail[i] == ts[i + 1]);
            }
        }
        lemma_join_split(tail);
        assert(join_tokens(ts) == ts[0] + seq!['\n'] + join_tokens(tail));
        assert(forall|i: int| 0 <= i < ts[0].len() ==> ts[0][i] != '\n');
        lemma_split_prefix(ts[0], join_tokens(tail), '\n');
        assert(split_on(join_tokens(ts), '\n') == seq![ts[0]] + tail.push(
            Seq::<char>::empty(),
        ));
        assert(seq![ts[0]] + tail.push(Seq::<char>::empty()) =~= ts.push(Seq::<char>::empty()));
    }
}

// ---------------------------------------------------------------------
// Tokens for scalars.
// ---------------------------------------------------------------------
/// An optional string: `-` for nothing, `+` then the escaped value.
pub open spec fn opt_tok(o: Option<Seq<char>>) -> Seq<char> {
    match o {
        None => seq!['-'],
        Some(v) => seq!['+'] + esc(v),
    }
}

/// Read an optional string back.
pub open spec fn parse_opt_tok(t: Seq<char>) -> Option<Option<Seq<char>>> {
    if t =~= seq!['-'] {
        Some(None)
    } else if t.len() >= 1 && t[0] == '+' {
        match unesc(t.subrange(1, t.len() as int)) {
            Some(v) => Some(Some(v)),
            None => None,
        }
    } else {
        None
    }
}

proof fn lemma_opt_roundtrip(o: Option<Seq<char>>)
    ensures
        parse_opt_tok(opt_tok(o)) == Some(o),
{
    match o {
        None => {},
        Some(v) => {
            let t = opt_tok(o);
            assert(t[0] == '+');
            assert(!(t =~= seq!['-']));
            assert(t.subrange(1, t.len() as int) =~= esc(v));
            lemma_esc_roundtrip(v);
        },
    }
}

/// `1` or `0`.
pub open spec fn bool_tok(b: bool) -> Seq<char> {
    if b {
        seq!['1']
    } else {
        seq!['0']
    }
}

/// `v` for the switch-socket transport, `p` for point-to-point.
pub open spec fn proto_tok(p: VdeConnProtocols) -> Seq<char> {
    if p is VDE {
        seq!['v']
    } else {
        seq!['p']
    }
}

// ---------------------------------------------------------------------
// The token grammar, device by device.  Parsing works on a cursor into
// the token list and returns the value with the next cursor.
// ---------------------------------------------------------------------
/// The escaped configuration lines, in order.
pub open spec fn ser_lines(ls: Seq<Seq<char>>) -> Seq<Seq<char>>
    decreases ls.len(),
{
    if ls.len() == 0 {
        Seq::<Seq<char>>::empty()
    } else {
        seq![esc(ls[0])] + ser_lines(ls.subrange(1, ls.len() as int))
    }
}

pub open spec fn parse_lines(ts: Seq<Seq<char>>, i: int, n: nat) -> Option<(Seq<Seq<char>>, int)>
    decreases n,
{
    if n == 0 {
        Some((Seq::<Seq<char>>::empty(), i))
    } else if !(0 <= i < ts.len()) {
        None
    } else {
        match unesc(ts[i]) {
            None => None,
            Some(l) => match parse_lines(ts, i + 1, (n - 1) as nat) {
                None => None,
                Some((v, j)) => Some((seq![l] + v, j)),
            },
        }
    }
}

/// A switch: name, port count, hub flag, then its config lines, counted.
pub open spec fn ser_switch(s: SwitchV) -> Seq<Seq<char>> {
    seq![esc(s.name), dec_of(s.ports as nat), bool_tok(s.hub), dec_of(s.config.len())]
        + ser_lines(s.config)
}

pub open spec fn parse_bool(t: Seq<char>) -> Option<bool> {
    if t =~= seq!['1'] {
        Some(true)
    } else if t =~= seq!['0'] {
        Some(false)
    } else {
        None
    }
}

pub open spec fn parse_proto(t: Seq<char>) -> Option<VdeConnProtocols> {
    if t =~= seq!['v'] {
        Some(VdeConnProtocols::VDE)
    } else if t =~= seq!['p'] {
        Some(VdeConnProtocols::PTP)
    } else {
        None
    }
}

pub open spec fn parse_count(t: Seq<char>) -> Option<nat> {
    if is_dec_seq(t) && dec_val(t) <= u64::MAX {
        Some(dec_val(t))
    } else {
        None
    }
}

pub open spec fn parse_switch(ts: Seq<Seq<char>>, i: int) -> Option<(SwitchV, int)> {
    if !(0 <= i && i + 4 <= ts.len()) {
        None
    } else {
        match (unesc(ts[i]), parse_count(ts[i + 1]), parse_bool(ts[i + 2]), parse_count(
            ts[i + 3],
        )) {
            (Some(name), Some(ports), Some(hub), Some(n)) => {
                if ports <= u32::MAX {
                    match parse_lines(ts, i + 4, n) {
                        Some((ls, j)) => Some(
                            (SwitchV { name, config: ls, ports: ports as u32, hub }, j),
                        ),
                        None => None,
                    }
                } else {
                    None
                }
            },
            _ => None,
        }
    }
}

/// An interface: name, optional address, optional gateway.
pub open spec fn ser_iface(f: NSInterfaceV) -> Seq<Seq<char>> {
    seq![esc(f.name), opt_tok(f.ip), opt_tok(f.gateway)]
}

pub open spec fn parse_iface(ts: Seq<Seq<char>>, i: int) -> Option<(NSInterfaceV, int)> {
    if !(0 <= i && i + 3 <= ts.len()) {
        None
    } else {
        match (unesc(ts[i]), parse_opt_tok(ts[i + 1]), parse_opt_tok(ts[i + 2])) {
            (Some(name), Some(ip), Some(gateway)) => Some(
                (NSInterfaceV { name, ip, gateway }, i + 3),
            ),
            _ => None,
        }
    }
}

pub open spec fn ser_ifaces(fs: Seq<NSInterfaceV>) -> Seq<Seq<char>>
    decreases fs.len(),
{
    if fs.len() == 0 {
        Seq::<Seq<char>>::empty()
    } else {
        ser_iface(fs[0]) + ser_ifaces(fs.subrange(1, fs.len() as int))
    }
}

pub open spec fn parse_ifaces(ts: Seq<Seq<char>>, i: int, n: nat) -> Option<
    (Seq<NSInterfaceV>, int),
>
    decreases n,
{
    if n == 0 {
        Some((Seq::<NSInterfaceV>::empty(), i))
    } else {
        match parse_iface(ts, i) {
            None => None,
            Some((f, j)) => match parse_ifaces(ts, j, (n - 1) as nat) {
                None => None,
                Some((v, k)) => Some((seq![f] + v, k)),
            },
        }
    }
}

/// A namespace: name, counted interfaces, counted config lines.
pub open spec fn ser_namespace(n: NamespaceV) -> Seq<Seq<char>> {
    seq![esc(n.name), dec_of(n.interfaces.len())] + ser_ifaces(n.interfaces) + seq![
        dec_of(n.config.len()),
    ] + ser_lines(n.config)
}

pub open spec fn parse_namespace(ts: Seq<Seq<char>>, i: int) -> Option<(NamespaceV, int)> {
    if !(0 <= i && i + 2 <= ts.len()) {
        None
    } else {
        match (unesc(ts[i]), parse_count(ts[i + 1])) {
            (Some(name), Some(nif)) => match parse_ifaces(ts, i + 2, nif) {
                None => None,
                Some((ifs, j)) => {
                    if !(j + 1 <= ts.len()) {
                        None
                    } else {
                        match parse_count(ts[j]) {
                            None => None,
                            Some(nc) => match parse_lines(ts, j + 1, nc) {
                                None => None,
                                Some((ls, k)) => Some(
                                    (NamespaceV { name, interfaces: ifs, config: ls }, k),
                                ),
                            },
                        }
                    }
                },
            },
            _ => None,
        }
    }
}

/// A cable end: name, optional port, transport.
pub open spec fn ser_endpoint(e: EndpointV) -> Seq<Seq<char>> {
    seq![esc(e.name), opt_tok(e.port), proto_tok(e.protocol)]
}

pub open spec fn parse_endpoint(ts: Seq<Seq<char>>, i: int) -> Option<(EndpointV, int)> {
    if !(0 <= i && i + 3 <= ts.len()) {
        None
    } else {
        match (unesc(ts[i]), parse_opt_tok(ts[i + 1]), parse_proto(ts[i + 2])) {
            (Some(name), Some(port), Some(protocol)) => Some(
                (EndpointV { name, port, protocol }, i + 3),
            ),
            _ => None,
        }
    }
}

/// A cable: name, both ends, filter flag, counted filter lines.
pub open spec fn ser_cable(c: CableV) -> Seq<Seq<char>> {
    seq![esc(c.name)] + ser_endpoint(c.a) + ser_endpoint(c.b) + seq![
        bool_tok(c.wirefilter),
        dec_of(c.config.len()),
    ] + ser_lines(c.config)
}

pub open spec fn parse_cable(ts: Seq<Seq<char>>, i: int) -> Option<(CableV, int)> {
    if !(0 <= i && i + 1 <= ts.len()) {
        None
    } else {
        match unesc(ts[i]) {
            None => None,
            Some(name) => match parse_endpoint(ts, i + 1) {
                None => None,
                Some((a, j)) => match parse_endpoint(ts, j) {
                    None => None,
                    Some((b, k)) => {
                        if !(k + 2 <= ts.len()) {
                            None
                        } else {
                            match (parse_bool(ts[k]), parse_count(ts[k + 1])) {
                                (Some(wf), Some(nc)) => match parse_lines(ts, k + 2, nc) {
                                    None => None,
                                    Some((ls, m)) => Some(
                                        (CableV { name, a, b, wirefilter: wf, config: ls }, m),
                                    ),
                                },
                                _ => None,
                            }
                        }
                    },
                },
            },
        }
    }
}

/// A NAT-exit device: just its name.
pub open spec fn ser_slirp(s: SlirpV) -> Seq<Seq<char>> {
    seq![esc(s.name)]
}

pub open spec fn parse_slirp(ts: Seq<Seq<char>>, i: int) -> Option<(SlirpV, int)> {
    if !(0 <= i && i + 1 <= ts.len()) {
        None
    } else {
        match unesc(ts[i]) {
            Some(name) => Some((SlirpV { name }, i + 1)),
            None => None,
        }
    }
}

/// An overlay device: name, optional address, optional port number.
pub open spec fn ser_vxvde(v: VXVDEV) -> Seq<Seq<char>> {
    let pt = match v.port {
        None => seq!['-'],
        Some(p) => seq!['+'] + dec_of(p as nat),
    };
    seq![esc(v.name), opt_tok(v.addr), pt]
}

pub open spec fn parse_u16_opt(t: Seq<char>) -> Option<Option<u16>> {
    if t =~= seq!['-'] {
        Some(None)
    } else if t.len() >= 1 && t[0] == '+' {
        let d = t.subrange(1, t.len() as int);
        if is_dec_seq(d) && dec_val(d) <= u16::MAX {
            Some(Some(dec_val(d) as u16))
        } else {
            None
        }
    } else {
        None
    }
}

pub open spec fn parse_vxvde(ts: Seq<Seq<char>>, i: int) -> Option<(VXVDEV, int)> {
    if !(0 <= i && i + 3 <= ts.len()) {
        None
    } else {
        match (unesc(ts[i]), parse_opt_tok(ts[i + 1]), parse_u16_opt(ts[i + 2])) {
            (Some(name), Some(addr), Some(port)) => Some((VXVDEV { name, addr, port }, i + 3)),
            _ => None,
        }
    }
}

// Counted runs of each device kind.
pub open spec fn ser_switches(ss: Seq<SwitchV>) -> Seq<Seq<char>>
    decreases ss.len(),
{
    if ss.len() == 0 {
        Seq::<Seq<char>>::empty()
    } else {
        ser_switch(ss[0]) + ser_switches(ss.subrange(1, ss.len() as int))
    }
}

pub open spec fn parse_switches(ts: Seq<Seq<char>>, i: int, n: nat) -> Option<(Seq<SwitchV>, int)>
    decreases n,
{
    if n == 0 {
        Some((Seq::<SwitchV>::empty(), i))
    } else {
        match parse_switch(ts, i) {
            None => None,
            Some((s, j)) => match parse_switches(ts, j, (n - 1) as nat) {
                None => None,
                Some((v, k)) => Some((seq![s] + v, k)),
            },
        }
    }
}

pub open spec fn ser_namespaces(ns: Seq<NamespaceV>) -> Seq<Seq<char>>
    decreases ns.len(),
{
    if ns.len() == 0 {
        Seq::<Seq<char>>::empty()
    } else {
        ser_namespace(ns[0]) + ser_namespaces(ns.subrange(1, ns.len() as int))
    }
}

pub open spec fn parse_namespaces(ts: Seq<Seq<char>>, i: int, n: nat) -> Option<
    (Seq<NamespaceV>, int),
>
    decreases n,
{
    if n == 0 {
        Some((Seq::<NamespaceV>::empty(), i))
    } else {
        match parse_namespace(ts, i) {
            None => None,
            Some((s, j)) => match parse_namespaces(ts, j, (n - 1) as nat) {
                None => None,
                Some((v, k)) => Some((seq![s] + v, k)),
            },
        }
    }
}

pub open spec fn ser_cables(cs: Seq<CableV>) -> Seq<Seq<char>>
    decreases cs.len(),
{
    if cs.len() == 0 {
        Seq::<Seq<char>>::empty()
    } else {
        ser_cable(cs[0]) + ser_cables(cs.subrange(1, cs.len() as int))
    }
}

pub open spec fn parse_cables(ts: Seq<Seq<char>>, i: int, n: nat) -> Option<(Seq<CableV>, int)>
    decreases n,
{
    if n == 0 {
        Some((Seq::<CableV>::empty(), i))
    } else {
        match parse_cable(ts, i) {
            None => None,
            Some((s, j)) => match parse_cables(ts, j, (n - 1) as nat) {
                None => None,
                Some((v, k)) => Some((seq![s] + v, k)),
            },
        }
    }
}

pub open spec fn ser_slirps(ss: Seq<SlirpV>) -> Seq<Seq<char>>
    decreases ss.len(),
{
    if ss.len() == 0 {
        Seq::<Seq<char>>::empty()
    } else {
        ser_slirp(ss[0]) + ser_slirps(ss.subrange(1, ss.len() as int))
    }
}

pub open spec fn parse_slirps(ts: Seq<Seq<char>>, i: int, n: nat) -> Option<(Seq<SlirpV>, int)>
    decreases n,
{
    if n == 0 {
        Some((Seq::<SlirpV>::empty(), i))
    } else {
        match parse_slirp(ts, i) {
            None => None,
            Some((s, j)) => match parse_slirps(ts, j, (n - 1) as nat) {
                None => None,
                Some((v, k)) => Some((seq![s] + v, k)),
            },
        }
    }
}

pub open spec fn ser_vxvdes(vs: Seq<VXVDEV>) -> Seq<Seq<char>>
    decreases vs.len(),
{
    if vs.len() == 0 {
        Seq::<Seq<char>>::empty()
    } else {
        ser_vxvde(vs[0]) + ser_vxvdes(vs.subrange(1, vs.len() as int))
    }
}

pub open spec fn parse_vxvdes(ts: Seq<Seq<char>>, i: int, n: nat) -> Option<(Seq<VXVDEV>, int)>
    decreases n,
{
    if n == 0 {
        Some((Seq::<VXVDEV>::empty(), i))
    } else {
        match parse_vxvde(ts, i) {
            None => None,
            Some((s, j)) => match parse_vxvdes(ts, j, (n - 1) as nat) {
                None => None,
                Some((v, k)) => Some((seq![s] + v, k)),
            },
        }
    }
}

/// The whole topology: each kind's count, then its devices, switches
/// first, then namespaces, cables, NAT exits and overlays.
pub open spec fn ser_topology(t: TopologyV) -> Seq<Seq<char>> {
    seq![dec_of(t.switches.len())] + ser_switches(t.switches) + seq![dec_of(t.namespaces.len())]
        + ser_namespaces(t.namespaces) + seq![dec_of(t.cables.len())] + ser_cables(t.cables)
        + seq![dec_of(t.slirps.len())] + ser_slirps(t.slirps) + seq![dec_of(t.vxvdes.len())]
        + ser_vxvdes(t.vxvdes)
}

/// Parse a whole topology; every token must be consumed.
pub open spec fn parse_topology(ts: Seq<Seq<char>>) -> Option<TopologyV> {
    if ts.len() < 1 {
        None
    } else {
        match parse_count(ts[0]) {
            None => None,
            Some(nsw) => match parse_switches(ts, 1, nsw) {
                None => None,
                Some((sws, i)) => {
                    if !(i + 1 <= ts.len()) {
                        None
                    } else {
                        match parse_count(ts[i]) {
                            None => None,
                            Some(nns) => match parse_namespaces(ts, i + 1, nns) {
                                None => None,
                                Some((nss, j)) => {
                                    if !(j + 1 <= ts.len()) {
                                        None
                                    } else {
                                        match parse_count(ts[j]) {
                                            None => None,
                                            Some(ncb) => match parse_cables(ts, j + 1, ncb) {
                                                None => None,
                                                Some((cbs, k)) => {
                                                    if !(k + 1 <= ts.len()) {
                                                        None
                                                    } else {
                                                        match parse_count(ts[k]) {
                                                            None => None,
                                                            Some(nsl) => match parse_slirps(
                                                                ts,
                                                                k + 1,
                                                                nsl,
                                                            ) {
                                                                None => None,
                                                                Some((sls, m)) => {
                                                                    if !(m + 1 <= ts.len()) {
                                                                        None
                                                                    } else {
                                                                        match parse_count(ts[m]) {
                                                                            None => None,
                                                                            Some(nvx) => match parse_vxvdes(
                                                                                ts,
                                                                                m + 1,
                                                                                nvx,
                                                                            ) {
                                                                                None => None,
                                                                                Some((vxs, w)) => {
                                                                                    if w
                                                                                        == ts.len() {
                                                                                        Some(
                                                                                            TopologyV {
                                                                                                switches: sws,
                                                                                                namespaces: nss,
                                                                                                cables: cbs,
                                                                                                slirps: sls,
                                                                                                vxvdes: vxs,
                                                                                            },
                                                                                        )
                                                                                    } else {
                                                                                        None
                                                                                    }
                                                                                },
                                                                            },
                                                                        }
                                                                    }
                                                                },
                                                            },
                                                        }
                                                    }
                                                },
                                            },
                                        }
                                    }
                                },
                            },
                        }
                    }
                },
            },
        }
    }
}

/// The document of a topology.
pub open spec fn topology_doc(t: TopologyV) -> Seq<char> {
    join_tokens(ser_topology(t))
}

/// Read a document back: split it into lines — the document must end
/// with a newline, leaving one empty trailing token — then parse.
pub open spec fn parse_doc(s: Seq<char>) -> Option<TopologyV> {
    let ts = split_on(s, '\n');
    if ts.len() >= 1 && ts.last().len() == 0 {
        parse_topology(ts.drop_last())
    } else {
        None
    }
}

// ---------------------------------------------------------------------
// Round trip: lengths, newline freedom, and parse inverting ser.
// ---------------------------------------------------------------------
/// One token holds no newline.
pub open spec fn tok_nl_free(t: Seq<char>) -> bool {
    forall|j: int| 0 <= j < t.len() ==> t[j] != '\n'
}

proof fn lemma_dec_nl_free(n: nat)
    ensures
        tok_nl_free(dec_of(n)),
{
    lemma_dec_roundtrip(n);
    assert forall|j: int| 0 <= j < dec_of(n).len() implies dec_of(n)[j] != '\n' by {
        assert(crate::strutil::is_dec_digit(dec_of(n)[j]));
    }
}

proof fn lemma_opt_nl_free(o: Option<Seq<char>>)
    ensures
        tok_nl_free(opt_tok(o)),
{
    match o {
        None => {},
        Some(v) => {
            lemma_esc_nl_free(v);
            assert forall|j: int| 0 <= j < opt_tok(o).len() implies opt_tok(o)[j] != '\n' by {
                if j >= 1 {
                    assert(opt_tok(o)[j] == esc(v)[j - 1]);
                }
            }
        },
    }
}

proof fn lemma_parse_bool(b: bool)
    ensures
        parse_bool(bool_tok(b)) == Some(b),
{
    if b {
        assert(bool_tok(b) =~= seq!['1']);
    } else {
        assert(bool_tok(b) =~= seq!['0']);
        assert(bool_tok(b)[0] == '0');
        assert(!(bool_tok(b) =~= seq!['1']));
    }
}

proof fn lemma_parse_proto(p: VdeConnProtocols)
    ensures
        parse_proto(proto_tok(p)) == Some(p),
{
    if p is VDE {
        assert(proto_tok(p) =~= seq!['v']);
    } else {
        assert(proto_tok(p) =~= seq!['p']);
        assert(proto_tok(p)[0] == 'p');
        assert(!(proto_tok(p) =~= seq!['v']));
    }
}

proof fn lemma_ser_lines_len(ls: Seq<Seq<char>>)
    ensures
        ser_lines(ls).len() == ls.len(),
        tokens_nl_free(ser_lines(ls)),
    decreases ls.len(),
{
    if ls.len() > 0 {
        let tail = ls.subrange(1, ls.len() as int);
        lemma_ser_lines_len(tail);
        lemma_esc_nl_free(ls[0]);
        assert forall|i: int, j: int|
            0 <= i < ser_lines(ls).len() && 0 <= j < ser_lines(ls)[i].len() implies #[trigger]
        ser_lines(ls)[i][j] != '\n' by {
            if i == 0 {
                assert(ser_lines(ls)[0] == esc(ls[0]));
            } else {
                assert(ser_lines(ls)[i] == ser_lines(tail)[i - 1]);
            }
        }
    }
}

/// Parsing `n` serialized lines from their position recovers them.
proof fn lemma_parse_lines(ls: Seq<Seq<char>>, ts: Seq<Seq<char>>, i: int)
    requires
        0 <= i,
        i + ls.len() <= ts.len(),
        ts.subrange(i, i + ls.len() as int) == ser_lines(ls),
    ensures
        parse_lines(ts, i, ls.len()) == Some((ls, i + ls.len() as int)),
    decreases ls.len(),
{
    lemma_ser_lines_len(ls);
    if ls.len() > 0 {
        let tail = ls.subrange(1, ls.len() as int);
        lemma_ser_lines_len(tail);
        assert(ts[i] == ts.subrange(i, i + ls.len() as int)[0]);
        assert(ts[i] == esc(ls[0]));
        lemma_esc_roundtrip(ls[0]);
        assert(ts.subrange(i + 1, i + 1 + tail.len() as int) =~= ser_lines(tail)) by {
            assert forall|k: int|
                0 <= k < tail.len() implies ts.subrange(i + 1, i + 1 + tail.len() as int)[k]
                == ser_lines(tail)[k] by {
                assert(ts.subrange(i + 1, i + 1 + tail.len() as int)[k] == ts[i + 1 + k]);
                assert(ts[i + 1 + k] == ts.subrange(i, i + ls.len() as int)[1 + k]);
                assert(ser_lines(ls)[1 + k] == ser_lines(tail)[k]);
            }
        }
        lemma_parse_lines(tail, ts, i + 1);
        assert(seq![ls[0]] + tail =~= ls);
    }
}

proof fn lemma_ser_switch_len(s: SwitchV)
    ensures
        ser_switch(s).len() == 4 + s.config.len(),
        tokens_nl_free(ser_switch(s)),
{
    lemma_ser_lines_len(s.config);
    lemma_esc_nl_free(s.name);
    lemma_dec_nl_free(s.ports as nat);
    lemma_dec_nl_free(s.config.len());
    assert forall|i: int, j: int|
        0 <= i < ser_switch(s).len() && 0 <= j < ser_switch(s)[i].len() implies #[trigger]
    ser_switch(s)[i][j] != '\n' by {
        if i >= 4 {
            assert(ser_switch(s)[i] == ser_lines(s.config)[i - 4]);
        } else {
            assert(ser_switch(s)[0] == esc(s.name));
            assert(ser_switch(s)[1] == dec_of(s.ports as nat));
            assert(ser_switch(s)[2] == bool_tok(s.hub));
            assert(ser_switch(s)[3] == dec_of(s.config.len()));
        }
    }
}

/// Parsing a serialized switch from its position recovers it.
proof fn lemma_parse_switch(s: SwitchV, ts: Seq<Seq<char>>, i: int)
    requires
        0 <= i,
        i + ser_switch(s).len() <= ts.len(),
        ts.subrange(i, i + ser_switch(s).len() as int) == ser_switch(s),
        s.config.len() <= u64::MAX,
    ensures
        parse_switch(ts, i) == Some((s, i + ser_switch(s).len() as int)),
{
    let sv = ser_switch(s);
    lemma_ser_switch_len(s);
    assert(ts[i] == ts.subrange(i, i + sv.len() as int)[0]);
    assert(ts[i + 1] == ts.subrange(i, i + sv.len() as int)[1]);
    assert(ts[i + 2] == ts.subrange(i, i + sv.len() as int)[2]);
    assert(ts[i + 3] == ts.subrange(i, i + sv.len() as int)[3]);
    assert(ts[i] == esc(s.name));
    assert(ts[i + 1] == dec_of(s.ports as nat));
    assert(ts[i + 2] == bool_tok(s.hub));
    assert(ts[i + 3] == dec_of(s.config.len()));
    lemma_parse_bool(s.hub);
    lemma_esc_roundtrip(s.name);
    lemma_dec_roundtrip(s.ports as nat);
    lemma_dec_roundtrip(s.config.len());
    assert(ts.subrange(i + 4, i + 4 + s.config.len() as int) =~= ser_lines(s.config)) by {
        lemma_ser_lines_len(s.config);
        assert forall|k: int|
            0 <= k < s.config.len() implies ts.subrange(i + 4, i + 4 + s.config.len() as int)[k]
            == ser_lines(s.config)[k] by {
            assert(ts.subrange(i + 4, i + 4 + s.config.len() as int)[k] == ts[i + 4 + k]);
            assert(ts[i + 4 + k] == ts.subrange(i, i + sv.len() as int)[4 + k]);
            assert(sv[4 + k] == ser_lines(s.config)[k]);
        }
    }
    lemma_parse_lines(s.config, ts, i + 4);
}

proof fn lemma_ser_iface_props(f: NSInterfaceV)
    ensures
        ser_iface(f).len() == 3,
        tokens_nl_free(ser_iface(f)),
{
    lemma_esc_nl_free(f.name);
    lemma_opt_nl_free(f.ip);
    lemma_opt_nl_free(f.gateway);
    assert forall|i: int, j: int|
        0 <= i < ser_iface(f).len() && 0 <= j < ser_iface(f)[i].len() implies #[trigger]
    ser_iface(f)[i][j] != '\n' by {
        assert(ser_iface(f)[0] == esc(f.name));
        assert(ser_iface(f)[1] == opt_tok(f.ip));
        assert(ser_iface(f)[2] == opt_tok(f.gateway));
    }
}

proof fn lemma_parse_iface(f: NSInterfaceV, ts: Seq<Seq<char>>, i: int)
    requires
        0 <= i,
        i + 3 <= ts.len(),
        ts.subrange(i, i + 3) == ser_iface(f),
    ensures
        parse_iface(ts, i) == Some((f, i + 3)),
{
    assert(ts[i] == ts.subrange(i, i + 3)[0]);
    assert(ts[i + 1] == ts.subrange(i, i + 3)[1]);
    assert(ts[i + 2] == ts.subrange(i, i + 3)[2]);
    lemma_esc_roundtrip(f.name);
    lemma_opt_roundtrip(f.ip);
    lemma_opt_roundtrip(f.gateway);
}

proof fn lemma_ser_ifaces_props(fs: Seq<NSInterfaceV>)
    ensures
        ser_ifaces(fs).len() == 3 * fs.len(),
        tokens_nl_free(ser_ifaces(fs)),
    decreases fs.len(),
{
    if fs.len() > 0 {
        let tail = fs.subrange(1, fs.len() as int);
        lemma_ser_ifaces_props(tail);
        lemma_ser_iface_props(fs[0]);
        assert forall|i: int, j: int|
            0 <= i < ser_ifaces(fs).len() && 0 <= j < ser_ifaces(fs)[i].len() implies #[trigger]
        ser_ifaces(fs)[i][j] != '\n' by {
            if i < 3 {
                assert(ser_ifaces(fs)[i] == ser_iface(fs[0])[i]);
            } else {
                assert(ser_ifaces(fs)[i] == ser_ifaces(tail)[i - 3]);
            }
        }
    }
}

proof fn lemma_parse_ifaces(fs: Seq<NSInterfaceV>, ts: Seq<Seq<char>>, i: int)
    requires
        0 <= i,
        i + 3 * fs.len() <= ts.len(),
        ts.subrange(i, i + 3 * fs.len()) == ser_ifaces(fs),
    ensures
        parse_ifaces(ts, i, fs.len()) == Some((fs, i + 3 * fs.len())),
    decreases fs.len(),
{
    lemma_ser_ifaces_props(fs);
    if fs.len() > 0 {
        let tail = fs.subrange(1, fs.len() as int);
        lemma_ser_ifaces_props(tail);
        assert(ts.subrange(i, i + 3) =~= ser_iface(fs[0])) by {
            assert forall|k: int| 0 <= k < 3 implies ts.subrange(i, i + 3)[k] == ser_iface(
                fs[0],
            )[k] by {
                assert(ts.subrange(i, i + 3)[k] == ts[i + k]);
                assert(ts[i + k] == ts.subrange(i, i + 3 * fs.len())[k]);
                assert(ser_ifaces(fs)[k] == ser_iface(fs[0])[k]);
            }
        }
        lemma_parse_iface(fs[0], ts, i);
        assert(ts.subrange(i + 3, i + 3 + 3 * tail.len()) =~= ser_ifaces(tail)) by {
            assert forall|k: int|
                0 <= k < 3 * tail.len() implies ts.subrange(i + 3, i + 3 + 3 * tail.len())[k]
                == ser_ifaces(tail)[k] by {
                assert(ts.subrange(i + 3, i + 3 + 3 * tail.len())[k] == ts[i + 3 + k]);
                assert(ts[i + 3 + k] == ts.subrange(i, i + 3 * fs.len())[3 + k]);
                assert(ser_ifaces(fs)[3 + k] == ser_ifaces(tail)[k]);
            }
        }
        lemma_parse_ifaces(tail, ts, i + 3);
        assert(seq![fs[0]] + tail =~= fs);
    }
}

proof fn lemma_ser_namespace_len(n: NamespaceV)
    ensures
        ser_namespace(n).len() == 3 + 3 * n.interfaces.len() + n.config.len(),
        tokens_nl_free(ser_namespace(n)),
{
    lemma_ser_ifaces_props(n.interfaces);
    lemma_ser_lines_len(n.config);
    lemma_esc_nl_free(n.name);
    lemma_dec_nl_free(n.interfaces.len());
    lemma_dec_nl_free(n.config.len());
    let sv = ser_namespace(n);
    assert forall|i: int, j: int|
        0 <= i < sv.len() && 0 <= j < sv[i].len() implies #[trigger] sv[i][j] != '\n' by {
        if i == 0 {
            assert(sv[0] == esc(n.name));
        } else if i == 1 {
            assert(sv[1] == dec_of(n.interfaces.len()));
        } else if i < 2 + 3 * n.interfaces.len() {
            assert(sv[i] == ser_ifaces(n.interfaces)[i - 2]);
        } else if i == 2 + 3 * n.interfaces.len() {
            assert(sv[i] == dec_of(n.config.len()));
        } else {
            assert(sv[i] == ser_lines(n.config)[i - 3 - 3 * n.interfaces.len()]);
        }
    }
}

proof fn lemma_parse_namespace(n: NamespaceV, ts: Seq<Seq<char>>, i: int)
    requires
        0 <= i,
        i + ser_namespace(n).len() <= ts.len(),
        ts.subrange(i, i + ser_namespace(n).len() as int) == ser_namespace(n),
        n.interfaces.len() <= u64::MAX,
        n.config.len() <= u64::MAX,
    ensures
        parse_namespace(ts, i) == Some((n, i + ser_namespace(n).len() as int)),
{
    let sv = ser_namespace(n);
    lemma_ser_namespace_len(n);
    let nif = n.interfaces.len() as int;
    assert(ts[i] == ts.subrange(i, i + sv.len() as int)[0]);
    assert(ts[i + 1] == ts.subrange(i, i + sv.len() as int)[1]);
    assert(ts[i] == esc(n.name));
    assert(ts[i + 1] == dec_of(n.interfaces.len()));
    lemma_esc_roundtrip(n.name);
    lemma_dec_roundtrip(n.interfaces.len());
    lemma_ser_ifaces_props(n.interfaces);
    assert(ts.subrange(i + 2, i + 2 + 3 * nif) =~= ser_ifaces(n.interfaces)) by {
        assert forall|k: int|
            0 <= k < 3 * nif implies ts.subrange(i + 2, i + 2 + 3 * nif)[k] == ser_ifaces(
            n.interfaces,
        )[k] by {
            assert(ts.subrange(i + 2, i + 2 + 3 * nif)[k] == ts[i + 2 + k]);
            assert(ts[i + 2 + k] == ts.subrange(i, i + sv.len() as int)[2 + k]);
            assert(sv[2 + k] == ser_ifaces(n.interfaces)[k]);
        }
    }
    lemma_parse_ifaces(n.interfaces, ts, i + 2);
    let j = i + 2 + 3 * nif;
    assert(ts[j] == ts.subrange(i, i + sv.len() as int)[2 + 3 * nif]);
    assert(ts[j] == dec_of(n.config.len()));
    lemma_dec_roundtrip(n.config.len());
    lemma_ser_lines_len(n.config);
    assert(ts.subrange(j + 1, j + 1 + n.config.len() as int) =~= ser_lines(n.config)) by {
        assert forall|k: int|
            0 <= k < n.config.len() implies ts.subrange(j + 1, j + 1 + n.config.len() as int)[k]
            == ser_lines(n.config)[k] by {
            assert(ts.subrange(j + 1, j + 1 + n.config.len() as int)[k] == ts[j + 1 + k]);
            assert(ts[j + 1 + k] == ts.subrange(i, i + sv.len() as int)[3 + 3 * nif + k]);
            assert(sv[3 + 3 * nif + k] == ser_lines(n.config)[k]);
        }
    }
    lemma_parse_lines(n.config, ts, j + 1);
}

proof fn lemma_ser_endpoint_props(e: EndpointV)
    ensures
        ser_endpoint(e).len() == 3,
        tokens_nl_free(ser_endpoint(e)),
{
    lemma_esc_nl_free(e.name);
    lemma_opt_nl_free(e.port);
    assert forall|i: int, j: int|
        0 <= i < ser_endpoint(e).len() && 0 <= j < ser_endpoint(e)[i].len() implies #[trigger]
    ser_endpoint(e)[i][j] != '\n' by {
        assert(ser_endpoint(e)[0] == esc(e.name));
        assert(ser_endpoint(e)[1] == opt_tok(e.port));
        assert(ser_endpoint(e)[2] == proto_tok(e.protocol));
    }
}

proof fn lemma_parse_endpoint(e: EndpointV, ts: Seq<Seq<char>>, i: int)
    requires
        0 <= i,
        i + 3 <= ts.len(),
        ts.subrange(i, i + 3) == ser_endpoint(e),
    ensures
        parse_endpoint(ts, i) == Some((e, i + 3)),
{
    assert(ts[i] == ts.subrange(i, i + 3)[0]);
    assert(ts[i + 1] == ts.subrange(i, i + 3)[1]);
    assert(ts[i + 2] == ts.subrange(i, i + 3)[2]);
    lemma_esc_roundtrip(e.name);
    lemma_opt_roundtrip(e.port);
    lemma_parse_proto(e.protocol);
}

proof fn lemma_ser_cable_len(c: CableV)
    ensures
        ser_cable(c).len() == 9 + c.config.len(),
        tokens_nl_free(ser_cable(c)),
{
    lemma_ser_endpoint_props(c.a);
    lemma_ser_endpoint_props(c.b);
    lemma_ser_lines_len(c.config);
    lemma_esc_nl_free(c.name);
    lemma_dec_nl_free(c.config.len());
    let sv = ser_cable(c);
    assert forall|i: int, j: int|
        0 <= i < sv.len() && 0 <= j < sv[i].len() implies #[trigger] sv[i][j] != '\n' by {
        if i == 0 {
            assert(sv[0] == esc(c.name));
        } else if i < 4 {
            assert(sv[i] == ser_endpoint(c.a)[i - 1]);
        } else if i < 7 {
            assert(sv[i] == ser_endpoint(c.b)[i - 4]);
        } else if i == 7 {
            assert(sv[7] == bool_tok(c.wirefilter));
        } else if i == 8 {
            assert(sv[8] == dec_of(c.config.len()));
        } else {
            assert(sv[i] == ser_lines(c.config)[i - 9]);
        }
    }
}

proof fn lemma_parse_cable(c: CableV, ts: Seq<Seq<char>>, i: int)
    requires
        0 <= i,
        i + ser_cable(c).len() <= ts.len(),
        ts.subrange(i, i + ser_cable(c).len() as int) == ser_cable(c),
        c.config.len() <= u64::MAX,
    ensures
        parse_cable(ts, i) == Some((c, i + ser_cable(c).len() as int)),
{
    let sv = ser_cable(c);
    lemma_ser_cable_len(c);
    lemma_ser_endpoint_props(c.a);
    lemma_ser_endpoint_props(c.b);
    assert(ts[i] == ts.subrange(i, i + sv.len() as int)[0]);
    assert(ts[i] == esc(c.name));
    lemma_esc_roundtrip(c.name);
    assert(ts.subrange(i + 1, i + 4) =~= ser_endpoint(c.a)) by {
        assert forall|k: int| 0 <= k < 3 implies ts.subrange(i + 1, i + 4)[k] == ser_endpoint(
            c.a,
        )[k] by {
            assert(ts.subrange(i + 1, i + 4)[k] == ts[i + 1 + k]);
            assert(ts[i + 1 + k] == ts.subrange(i, i + sv.len() as int)[1 + k]);
            assert(sv[1 + k] == ser_endpoint(c.a)[k]);
        }
    }
    lemma_parse_endpoint(c.a, ts, i + 1);
    assert(ts.subrange(i + 4, i + 7) =~= ser_endpoint(c.b)) by {
        assert forall|k: int| 0 <= k < 3 implies ts.subrange(i + 4, i + 7)[k] == ser_endpoint(
            c.b,
        )[k] by {
            assert(ts.subrange(i + 4, i + 7)[k] == ts[i + 4 + k]);
            assert(ts[i + 4 + k] == ts.subrange(i, i + sv.len() as int)[4 + k]);
            assert(sv[4 + k] == ser_endpoint(c.b)[k]);
        }
    }
    lemma_parse_endpoint(c.b, ts, i + 4);
    assert(ts[i + 7] == ts.subrange(i, i + sv.len() as int)[7]);
    assert(ts[i + 8] == ts.subrange(i, i + sv.len() as int)[8]);
    assert(ts[i + 7] == bool_tok(c.wirefilter));
    assert(ts[i + 8] == dec_of(c.config.len()));
    lemma_parse_bool(c.wirefilter);
    lemma_dec_roundtrip(c.config.len());
    lemma_ser_lines_len(c.config);
    assert(ts.subrange(i + 9, i + 9 + c.config.len() as int) =~= ser_lines(c.config)) by {
        assert forall|k: int|
            0 <= k < c.config.len() implies ts.subrange(i + 9, i + 9 + c.config.len() as int)[k]
            == ser_lines(c.config)[k] by {
            assert(ts.subrange(i + 9, i + 9 + c.config.len() as int)[k] == ts[i + 9 + k]);
            assert(ts[i + 9 + k] == ts.subrange(i, i + sv.len() as int)[9 + k]);
            assert(sv[9 + k] == ser_lines(c.config)[k]);
        }
    }
    lemma_parse_lines(c.config, ts, i + 9);
}

proof fn lemma_ser_slirp_props(s: SlirpV)
    ensures
        ser_slirp(s).len() == 1,
        tokens_nl_free(ser_slirp(s)),
{
    lemma_esc_nl_free(s.name);
    assert forall|i: int, j: int|
        0 <= i < ser_slirp(s).len() && 0 <= j < ser_slirp(s)[i].len() implies #[trigger]
    ser_slirp(s)[i][j] != '\n' by {
        assert(ser_slirp(s)[0] == esc(s.name));
    }
}

proof fn lemma_parse_slirp(s: SlirpV, ts: Seq<Seq<char>>, i: int)
    requires
        0 <= i,
        i + 1 <= ts.len(),
        ts.subrange(i, i + 1) == ser_slirp(s),
    ensures
        parse_slirp(ts, i) == Some((s, i + 1)),
{
    assert(ts[i] == ts.subrange(i, i + 1)[0]);
    lemma_esc_roundtrip(s.name);
}

proof fn lemma_ser_vxvde_props(v: VXVDEV)
    ensures
        ser_vxvde(v).len() == 3,
        tokens_nl_free(ser_vxvde(v)),
{
    lemma_esc_nl_free(v.name);
    lemma_opt_nl_free(v.addr);
    if v.port is Some {
        lemma_dec_nl_free(v.port->0 as nat);
    }
    assert forall|i: int, j: int|
        0 <= i < ser_vxvde(v).len() && 0 <= j < ser_vxvde(v)[i].len() implies #[trigger]
    ser_vxvde(v)[i][j] != '\n' by {
        assert(ser_vxvde(v)[0] == esc(v.name));
        assert(ser_vxvde(v)[1] == opt_tok(v.addr));
        if i == 2 && v.port is Some && j >= 1 {
            assert(ser_vxvde(v)[2][j] == dec_of(v.port->0 as nat)[j - 1]);
        }
    }
}

proof fn lemma_parse_vxvde(v: VXVDEV, ts: Seq<Seq<char>>, i: int)
    requires
        0 <= i,
        i + 3 <= ts.len(),
        ts.subrange(i, i + 3) == ser_vxvde(v),
    ensures
        parse_vxvde(ts, i) == Some((v, i + 3)),
{
    assert(ts[i] == ts.subrange(i, i + 3)[0]);
    assert(ts[i + 1] == ts.subrange(i, i + 3)[1]);
    assert(ts[i + 2] == ts.subrange(i, i + 3)[2]);
    lemma_esc_roundtrip(v.name);
    lemma_opt_roundtrip(v.addr);
    match v.port {
        None => {},
        Some(p) => {
            lemma_dec_roundtrip(p as nat);
            let t = ts[i + 2];
            assert(t == seq!['+'] + dec_of(p as nat));
            assert(t[0] == '+');
            assert(!(t =~= seq!['-']));
            assert(t.subrange(1, t.len() as int) =~= dec_of(p as nat));
        },
    }
}

proof fn lemma_ser_switches_props(ss: Seq<SwitchV>)
    ensures
        tokens_nl_free(ser_switches(ss)),
    decreases ss.len(),
{
    if ss.len() > 0 {
        let tail = ss.subrange(1, ss.len() as int);
        lemma_ser_switches_props(tail);
        lemma_ser_switch_len(ss[0]);
        let hl = ser_switch(ss[0]).len() as int;
        assert forall|i: int, j: int|
            0 <= i < ser_switches(ss).len() && 0 <= j < ser_switches(ss)[i].len() implies
        #[trigger] ser_switches(ss)[i][j] != '\n' by {
            if i < hl {
                assert(ser_switches(ss)[i] == ser_switch(ss[0])[i]);
            } else {
                assert(ser_switches(ss)[i] == ser_switches(tail)[i - hl]);
            }
        }
    }
}

proof fn lemma_parse_switches(ss: Seq<SwitchV>, ts: Seq<Seq<char>>, i: int)
    requires
        0 <= i,
        i + ser_switches(ss).len() <= ts.len(),
        ts.subrange(i, i + ser_switches(ss).len() as int) == ser_switches(ss),
        forall|k: int| 0 <= k < ss.len() ==> #[trigger] ss[k].config.len() <= u64::MAX,
    ensures
        parse_switches(ts, i, ss.len()) == Some((ss, i + ser_switches(ss).len() as int)),
    decreases ss.len(),
{
    if ss.len() > 0 {
        let tail = ss.subrange(1, ss.len() as int);
        lemma_ser_switch_len(ss[0]);
        let hl = ser_switch(ss[0]).len() as int;
        let full = ser_switches(ss).len() as int;
        assert(ts.subrange(i, i + hl) =~= ser_switch(ss[0])) by {
            assert forall|k: int| 0 <= k < hl implies ts.subrange(i, i + hl)[k] == ser_switch(
                ss[0],
            )[k] by {
                assert(ts.subrange(i, i + hl)[k] == ts[i + k]);
                assert(ts[i + k] == ts.subrange(i, i + full)[k]);
                assert(ser_switches(ss)[k] == ser_switch(ss[0])[k]);
            }
        }
        assert(ss[0].config.len() <= u64::MAX);
        lemma_parse_switch(ss[0], ts, i);
        assert(ts.subrange(i + hl, i + full) =~= ser_switches(tail)) by {
            assert forall|k: int|
                0 <= k < full - hl implies ts.subrange(i + hl, i + full)[k] == ser_switches(
                tail,
            )[k] by {
                assert(ts.subrange(i + hl, i + full)[k] == ts[i + hl + k]);
                assert(ts[i + hl + k] == ts.subrange(i, i + full)[hl + k]);
                assert(ser_switches(ss)[hl + k] == ser_switches(tail)[k]);
            }
        }
        assert(forall|k: int| 0 <= k < tail.len() ==> #[trigger] tail[k].config.len()
            <= u64::MAX) by {
            assert(forall|k: int| 0 <= k < tail.len() ==> tail[k] == ss[k + 1]);
        }
        lemma_parse_switches(tail, ts, i + hl);
        assert(seq![ss[0]] + tail =~= ss);
    }
}

proof fn lemma_ser_namespaces_props(ns: Seq<NamespaceV>)
    ensures
        tokens_nl_free(ser_namespaces(ns)),
    decreases ns.len(),
{
    if ns.len() > 0 {
        let tail = ns.subrange(1, ns.len() as int);
        lemma_ser_namespaces_props(tail);
        lemma_ser_namespace_len(ns[0]);
        let hl = ser_namespace(ns[0]).len() as int;
        assert forall|i: int, j: int|
            0 <= i < ser_namespaces(ns).len() && 0 <= j < ser_namespaces(ns)[i].len() implies
        #[trigger] ser_namespaces(ns)[i][j] != '\n' by {
            if i < hl {
                assert(ser_namespaces(ns)[i] == ser_namespace(ns[0])[i]);
            } else {
                assert(ser_namespaces(ns)[i] == ser_namespaces(tail)[i - hl]);
            }
        }
    }
}

proof fn lemma_parse_namespaces(ns: Seq<NamespaceV>, ts: Seq<Seq<char>>, i: int)
    requires
        0 <= i,
        i + ser_namespaces(ns).len() <= ts.len(),
        ts.subrange(i, i + ser_namespaces(ns).len() as int) == ser_namespaces(ns),
        forall|k: int|
            0 <= k < ns.len() ==> #[trigger] ns[k].interfaces.len() <= u64::MAX
                && ns[k].config.len() <= u64::MAX,
    ensures
        parse_namespaces(ts, i, ns.len()) == Some((ns, i + ser_namespaces(ns).len() as int)),
    decreases ns.len(),
{
    if ns.len() > 0 {
        let tail = ns.subrange(1, ns.len() as int);
        lemma_ser_namespace_len(ns[0]);
        let hl = ser_namespace(ns[0]).len() as int;
        let full = ser_namespaces(ns).len() as int;
        assert(ts.subrange(i, i + hl) =~= ser_namespace(ns[0])) by {
            assert forall|k: int| 0 <= k < hl implies ts.subrange(i, i + hl)[k] == ser_namespace(
                ns[0],
            )[k] by {
                assert(ts.subrange(i, i + hl)[k] == ts[i + k]);
                assert(ts[i + k] == ts.subrange(i, i + full)[k]);
                assert(ser_namespaces(ns)[k] == ser_namespace(ns[0])[k]);
            }
        }
        assert(ns[0].interfaces.len() <= u64::MAX && ns[0].config.len() <= u64::MAX);
        lemma_parse_namespace(ns[0], ts, i);
        assert(ts.subrange(i + hl, i + full) =~= ser_namespaces(tail)) by {
            assert forall|k: int|
                0 <= k < full - hl implies ts.subrange(i + hl, i + full)[k] == ser_namespaces(
                tail,
            )[k] by {
                assert(ts.subrange(i + hl, i + full)[k] == ts[i + hl + k]);
                assert(ts[i + hl + k] == ts.subrange(i, i + full)[hl + k]);
                assert(ser_namespaces(ns)[hl + k] == ser_namespaces(tail)[k]);
            }
        }
        assert(forall|k: int|
            0 <= k < tail.len() ==> #[trigger] tail[k].interfaces.len() <= u64::MAX
                && tail[k].config.len() <= u64::MAX) by {
            assert(forall|k: int| 0 <= k < tail.len() ==> tail[k] == ns[k + 1]);
        }
        lemma_parse_namespaces(tail, ts, i + hl);
        assert(seq![ns[0]] + tail =~= ns);
    }
}

proof fn lemma_ser_cables_props(cs: Seq<CableV>)
    ensures
        tokens_nl_free(ser_cables(cs)),
    decreases cs.len(),
{
    if cs.len() > 0 {
        let tail = cs.subrange(1, cs.len() as int);
        lemma_ser_cables_props(tail);
        lemma_ser_cable_len(cs[0]);
        let hl = ser_cable(cs[0]).len() as int;
        assert forall|i: int, j: int|
            0 <= i < ser_cables(cs).len() && 0 <= j < ser_cables(cs)[i].len() implies #[trigger]
        ser_cables(cs)[i][j] != '\n' by {
            if i < hl {
                assert(ser_cables(cs)[i] == ser_cable(cs[0])[i]);
            } else {
                assert(ser_cables(cs)[i] == ser_cables(tail)[i - hl]);
            }
        }
    }
}

proof fn lemma_parse_cables(cs: Seq<CableV>, ts: Seq<Seq<char>>, i: int)
    requires
        0 <= i,
        i + ser_cables(cs).len() <= ts.len(),
        ts.subrange(i, i + ser_cables(cs).len() as int) == ser_cables(cs),
        forall|k: int| 0 <= k < cs.len() ==> #[trigger] cs[k].config.len() <= u64::MAX,
    ensures
        parse_cables(ts, i, cs.len()) == Some((cs, i + ser_cables(cs).len() as int)),
    decreases cs.len(),
{
    if cs.len() > 0 {
        let tail = cs.subrange(1, cs.len() as int);
        lemma_ser_cable_len(cs[0]);
        let hl = ser_cable(cs[0]).len() as int;
        let full = ser_cables(cs).len() as int;
        assert(ts.subrange(i, i + hl) =~= ser_cable(cs[0])) by {
            assert forall|k: int| 0 <= k < hl implies ts.subrange(i, i + hl)[k] == ser_cable(
                cs[0],
            )[k] by {
                assert(ts.subrange(i, i + hl)[k] == ts[i + k]);
                assert(ts[i + k] == ts.subrange(i, i + full)[k]);
                assert(ser_cables(cs)[k] == ser_cable(cs[0])[k]);
            }
        }
        assert(cs[0].config.len() <= u64::MAX);
        lemma_parse_cable(cs[0], ts, i);
        assert(ts.subrange(i + hl, i + full) =~= ser_cables(tail)) by {
            assert forall|k: int|
                0 <= k < full - hl implies ts.subrange(i + hl, i + full)[k] == ser_cables(
                tail,
            )[k] by {
                assert(ts.subrange(i + hl, i + full)[k] == ts[i + hl + k]);
                assert(ts[i + hl + k] == ts.subrange(i, i + full)[hl + k]);
                assert(ser_cables(cs)[hl + k] == ser_cables(tail)[k]);
            }
        }
        assert(forall|k: int| 0 <= k < tail.len() ==> #[trigger] tail[k].config.len()
            <= u64::MAX) by {
            assert(forall|k: int| 0 <= k < tail.len() ==> tail[k] == cs[k + 1]);
        }
        lemma_parse_cables(tail, ts, i + hl);
        assert(seq![cs[0]] + tail =~= cs);
    }
}

proof fn lemma_ser_slirps_props(ss: Seq<SlirpV>)
    ensures
        tokens_nl_free(ser_slirps(ss)),
        ser_slirps(ss).len() == ss.len(),
    decreases ss.len(),
{
    if ss.len() > 0 {
        let tail = ss.subrange(1, ss.len() as int);
        lemma_ser_slirps_props(tail);
        lemma_ser_slirp_props(ss[0]);
        assert forall|i: int, j: int|
            0 <= i < ser_slirps(ss).len() && 0 <= j < ser_slirps(ss)[i].len() implies #[trigger]
        ser_slirps(ss)[i][j] != '\n' by {
            if i < 1 {
                assert(ser_slirps(ss)[i] == ser_slirp(ss[0])[i]);
            } else {
                assert(ser_slirps(ss)[i] == ser_slirps(tail)[i - 1]);
            }
        }
    }
}

proof fn lemma_parse_slirps(ss: Seq<SlirpV>, ts: Seq<Seq<char>>, i: int)
    requires
        0 <= i,
        i + ss.len() <= ts.len(),
        ts.subrange(i, i + ss.len() as int) == ser_slirps(ss),
    ensures
        parse_slirps(ts, i, ss.len()) == Some((ss, i + ss.len() as int)),
    decreases ss.len(),
{
    lemma_ser_slirps_props(ss);
    if ss.len() > 0 {
        let tail = ss.subrange(1, ss.len() as int);
        lemma_ser_slirps_props(tail);
        assert(ts.subrange(i, i + 1) =~= ser_slirp(ss[0])) by {
            assert(ts.subrange(i, i + 1)[0] == ts[i]);
            assert(ts[i] == ts.subrange(i, i + ss.len() as int)[0]);
            assert(ser_slirps(ss)[0] == ser_slirp(ss[0])[0]);
        }
        lemma_parse_slirp(ss[0], ts, i);
        assert(ts.subrange(i + 1, i + 1 + tail.len() as int) =~= ser_slirps(tail)) by {
            assert forall|k: int|
                0 <= k < tail.len() implies ts.subrange(i + 1, i + 1 + tail.len() as int)[k]
                == ser_slirps(tail)[k] by {
                assert(ts.subrange(i + 1, i + 1 + tail.len() as int)[k] == ts[i + 1 + k]);
                assert(ts[i + 1 + k] == ts.subrange(i, i + ss.len() as int)[1 + k]);
                assert(ser_slirps(ss)[1 + k] == ser_slirps(tail)[k]);
            }
        }
        lemma_parse_slirps(tail, ts, i + 1);
        assert(seq![ss[0]] + tail =~= ss);
    }
}

proof fn lemma_ser_vxvdes_props(vs: Seq<VXVDEV>)
    ensures
        tokens_nl_free(ser_vxvdes(vs)),
        ser_vxvdes(vs).len() == 3 * vs.len(),
    decreases vs.len(),
{
    if vs.len() > 0 {
        let tail = vs.subrange(1, vs.len() as int);
        lemma_ser_vxvdes_props(tail);
        lemma_ser_vxvde_props(vs[0]);
        assert forall|i: int, j: int|
            0 <= i < ser_vxvdes(vs).len() && 0 <= j < ser_vxvdes(vs)[i].len() implies #[trigger]
        ser_vxvdes(vs)[i][j] != '\n' by {
            if i < 3 {
                assert(ser_vxvdes(vs)[i] == ser_vxvde(vs[0])[i]);
            } else {
                assert(ser_vxvdes(vs)[i] == ser_vxvdes(tail)[i - 3]);
            }
        }
    }
}

proof fn lemma_parse_vxvdes(vs: Seq<VXVDEV>, ts: Seq<Seq<char>>, i: int)
    requires
        0 <= i,
        i + 3 * vs.len() <= ts.len(),
        ts.subrange(i, i + 3 * vs.len()) == ser_vxvdes(vs),
    ensures
        parse_vxvdes(ts, i, vs.len()) == Some((vs, i + 3 * vs.len())),
    decreases vs.len(),
{
    lemma_ser_vxvdes_props(vs);
    if vs.len() > 0 {
        let tail = vs.subrange(1, vs.len() as int);
        lemma_ser_vxvdes_props(tail);
        assert(ts.subrange(i, i + 3) =~= ser_vxvde(vs[0])) by {
            assert forall|k: int| 0 <= k < 3 implies ts.subrange(i, i + 3)[k] == ser_vxvde(
                vs[0],
            )[k] by {
                assert(ts.subrange(i, i + 3)[k] == ts[i + k]);
                assert(ts[i + k] == ts.subrange(i, i + 3 * vs.len())[k]);
                assert(ser_vxvdes(vs)[k] == ser_vxvde(vs[0])[k]);
            }
        }
        lemma_parse_vxvde(vs[0], ts, i);
        assert(ts.subrange(i + 3, i + 3 + 3 * tail.len()) =~= ser_vxvdes(tail)) by {
            assert forall|k: int|
                0 <= k < 3 * tail.len() implies ts.subrange(i + 3, i + 3 + 3 * tail.len())[k]
                == ser_vxvdes(tail)[k] by {
                assert(ts.subrange(i + 3, i + 3 + 3 * tail.len())[k] == ts[i + 3 + k]);
                assert(ts[i + 3 + k] == ts.subrange(i, i + 3 * vs.len())[3 + k]);
                assert(ser_vxvdes(vs)[3 + k] == ser_vxvdes(tail)[k]);
            }
        }
        lemma_parse_vxvdes(tail, ts, i + 3);
        assert(seq![vs[0]] + tail =~= vs);
    }
}

/// Every count a topology's document carries fits the decoder's numeric
/// range: a machine-level bound, trivially true of any topology that fits
/// in memory.
pub open spec fn bounded_topology(t: TopologyV) -> bool {
    &&& t.switches.len() <= u64::MAX
    &&& t.namespaces.len() <= u64::MAX
    &&& t.cables.len() <= u64::MAX
    &&& t.slirps.len() <= u64::MAX
    &&& t.vxvdes.len() <= u64::MAX
    &&& forall|i: int| 0 <= i < t.switches.len() ==> #[trigger] t.switches[i].config.len()
        <= u64::MAX
    &&& forall|i: int|
        0 <= i < t.namespaces.len() ==> #[trigger] t.namespaces[i].interfaces.len() <= u64::MAX
            && t.namespaces[i].config.len() <= u64::MAX
    &&& forall|i: int| 0 <= i < t.cables.len() ==> #[trigger] t.cables[i].config.len()
        <= u64::MAX
}

/// Decoding a topology's own document yields the topology back: the
/// round-trip law of the persisted form.
#[verifier::rlimit(100)]
#[verifier::spinoff_prover]
pub proof fn lemma_codec_roundtrip(t: TopologyV)
    requires
        bounded_topology(t),
    ensures
        parse_doc(topology_doc(t)) == Some(t),
{
    let sv = ser_topology(t);
    let p1 = ser_switches(t.switches);
    let p2 = ser_namespaces(t.namespaces);
    let p3 = ser_cables(t.cables);
    let p4 = ser_slirps(t.slirps);
    let p5 = ser_vxvdes(t.vxvdes);
    lemma_ser_switches_props(t.switches);
    lemma_ser_namespaces_props(t.namespaces);
    lemma_ser_cables_props(t.cables);
    lemma_ser_slirps_props(t.slirps);
    lemma_ser_vxvdes_props(t.vxvdes);
    lemma_dec_nl_free(t.switches.len());
    lemma_dec_nl_free(t.namespaces.len());
    lemma_dec_nl_free(t.cables.len());
    lemma_dec_nl_free(t.slirps.len());
    lemma_dec_nl_free(t.vxvdes.len());

    let o1: int = 1;
    let o2 = o1 + p1.len() as int;
    let o3 = o2 + 1;
    let o4 = o3 + p2.len() as int;
    let o5 = o4 + 1;
    let o6 = o5 + p3.len() as int;
    let o7 = o6 + 1;
    let o8 = o7 + p4.len() as int;
    let o9 = o8 + 1;
    let end = o9 + p5.len() as int;
    assert(sv.len() == end);
    assert(sv[0] == dec_of(t.switches.len()));
    assert(sv[o2] == dec_of(t.namespaces.len()));
    assert(sv[o4] == dec_of(t.cables.len()));
    assert(sv[o6] == dec_of(t.slirps.len()));
    assert(sv[o8] == dec_of(t.vxvdes.len()));

    assert(tokens_nl_free(sv)) by {
        assert forall|i: int, j: int|
            0 <= i < sv.len() && 0 <= j < sv[i].len() implies #[trigger] sv[i][j] != '\n' by {
            if i == 0 {
            } else if i < o2 {
                assert(sv[i] == p1[i - o1]);
            } else if i == o2 {
            } else if i < o4 {
                assert(sv[i] == p2[i - o3]);
            } else if i == o4 {
            } else if i < o6 {
                assert(sv[i] == p3[i - o5]);
            } else if i == o6 {
            } else if i < o8 {
                assert(sv[i] == p4[i - o7]);
            } else if i == o8 {
            } else {
                assert(sv[i] == p5[i - o9]);
            }
        }
    }
    lemma_join_split(sv);
    let ts0 = split_on(topology_doc(t), '\n');
    assert(ts0 == sv.push(Seq::<char>::empty()));
    assert(ts0.last().len() == 0);
    assert(ts0.drop_last() =~= sv);

    // Parse the token list back, section by section.
    lemma_dec_roundtrip(t.switches.len());
    lemma_dec_roundtrip(t.namespaces.len());
    lemma_dec_roundtrip(t.cables.len());
    lemma_dec_roundtrip(t.slirps.len());
    lemma_dec_roundtrip(t.vxvdes.len());

    assert(sv.subrange(o1, o2) =~= p1) by {
        assert forall|k: int| 0 <= k < p1.len() implies sv.subrange(o1, o2)[k] == p1[k] by {
            assert(sv.subrange(o1, o2)[k] == sv[o1 + k]);
            assert(sv[o1 + k] == p1[k]);
        }
    }
    lemma_parse_switches(t.switches, sv, o1);
    assert(sv.subrange(o3, o4) =~= p2) by {
        assert forall|k: int| 0 <= k < p2.len() implies sv.subrange(o3, o4)[k] == p2[k] by {
            assert(sv.subrange(o3, o4)[k] == sv[o3 + k]);
            assert(sv[o3 + k] == p2[k]);
        }
    }
    lemma_parse_namespaces(t.namespaces, sv, o3);
    assert(sv.subrange(o5, o6) =~= p3) by {
        assert forall|k: int| 0 <= k < p3.len() implies sv.subrange(o5, o6)[k] == p3[k] by {
            assert(sv.subrange(o5, o6)[k] == sv[o5 + k]);
            assert(sv[o5 + k] == p3[k]);
        }
    }
    lemma_parse_cables(t.cables, sv, o5);
    assert(sv.subrange(o7, o8) =~= p4) by {
        assert forall|k: int| 0 <= k < p4.len() implies sv.subrange(o7, o8)[k] == p4[k] by {
            assert(sv.subrange(o7, o8)[k] == sv[o7 + k]);
            assert(sv[o7 + k] == p4[k]);
        }
    }
    lemma_parse_slirps(t.slirps, sv, o7);
    assert(sv.subrange(o9, end) =~= p5) by {
        assert forall|k: int| 0 <= k < p5.len() implies sv.subrange(o9, end)[k] == p5[k] by {
            assert(sv.subrange(o9, end)[k] == sv[o9 + k]);
            assert(sv[o9 + k] == p5[k]);
        }
    }
    lemma_parse_vxvdes(t.vxvdes, sv, o9);
    assert(parse_topology(sv) == Some(t));
}

// ---------------------------------------------------------------------
// The executable encoder.
// ---------------------------------------------------------------------
fn opt_token(o: &Option<String>) -> (r: String)
    ensures
        r@ == opt_tok(o.deep_view()),
{
    match o {
        None => {
            let r = String::from_str("-");
            proof {
                reveal_strlit("-");
                assert(r@ =~= seq!['-']);
            }
            r
        },
        Some(v) => {
            let mut r = String::from_str("+");
            r.append(esc_str(v.as_str()).as_str());
            proof {
                reveal_strlit("+");
                assert(r@ =~= seq!['+'] + esc(v@));
            }
            r
        },
    }
}

fn bool_token(b: bool) -> (r: String)
    ensures
        r@ == bool_tok(b),
{
    if b {
        let r = String::from_str("1");
        proof {
            reveal_strlit("1");
            assert(r@ =~= seq!['1']);
        }
        r
    } else {
        let r = String::from_str("0");
        proof {
            reveal_strlit("0");
            assert(r@ =~= seq!['0']);
        }
        r
    }
}

fn proto_token(p: &VdeConnProtocols) -> (r: String)
    ensures
        r@ == proto_tok(*p),
{
    match p {
        VdeConnProtocols::VDE => {
            let r = String::from_str("v");
            proof {
                reveal_strlit("v");
                assert(r@ =~= seq!['v']);
            }
            r
        },
        VdeConnProtocols::PTP => {
            let r = String::from_str("p");
            proof {
                reveal_strlit("p");
                assert(r@ =~= seq!['p']);
            }
            r
        },
    }
}

fn lines_tokens(ls: &Vec<String>, i: usize) -> (r: Vec<String>)
    requires
        i <= ls@.len(),
    ensures
        r.deep_view() == ser_lines(ls.deep_view().subrange(i as int, ls@.len() as int)),
    decreases ls@.len() - i,
{
    let ghost suffix = ls.deep_view().subrange(i as int, ls@.len() as int);
    if i == ls.len() {
        let r: Vec<String> = Vec::new();
        proof {
            assert(suffix =~= Seq::<Seq<char>>::empty());
            assert(r.deep_view() =~= ser_lines(suffix));
        }
        return r;
    }
    let mut v: Vec<String> = Vec::new();
    push_arg(&mut v, esc_str(ls[i].as_str()));
    let ghost pre_vec = v;
    let mut tail = lines_tokens(ls, i + 1);
    let ghost tail_vec = tail;
    v.append(&mut tail);
    proof {
        lemma_append_deep_view(v, pre_vec, tail_vec);
        assert(suffix[0] == ls.deep_view()[i as int]);
        assert(suffix.subrange(1, suffix.len() as int) =~= ls.deep_view().subrange(
            i + 1,
            ls@.len() as int,
        ));
        assert(v.deep_view() =~= ser_lines(suffix));
    }
    v
}

fn switch_tokens(s: &Switch) -> (r: Vec<String>)
    ensures
        r.deep_view() == ser_switch(s@),
{
    let mut v: Vec<String> = Vec::new();
    push_arg(&mut v, esc_str(s.name.as_str()));
    push_arg(&mut v, u64_to_dec(s.ports as u64));
    push_arg(&mut v, bool_token(s.hub));
    push_arg(&mut v, u64_to_dec(s.config.len() as u64));
    let ghost pre_vec = v;
    let mut tail = lines_tokens(&s.config, 0);
    let ghost tail_vec = tail;
    v.append(&mut tail);
    proof {
        lemma_append_deep_view(v, pre_vec, tail_vec);
        assert(s.config.deep_view().subrange(0, s.config@.len() as int) =~= s@.config);
        assert(v.deep_view() =~= ser_switch(s@));
    }
    v
}

fn iface_tokens(f: &NSInterface) -> (r: Vec<String>)
    ensures
        r.deep_view() == ser_iface(f@),
{
    let mut v: Vec<String> = Vec::new();
    push_arg(&mut v, esc_str(f.name.as_str()));
    push_arg(&mut v, opt_token(&f.ip));
    push_arg(&mut v, opt_token(&f.gateway));
    proof {
        assert(v.deep_view() =~= ser_iface(f@));
    }
    v
}

fn ifaces_tokens(fs: &Vec<NSInterface>, i: usize) -> (r: Vec<String>)
    requires
        i <= fs@.len(),
    ensures
        r.deep_view() == ser_ifaces(fs.deep_view().subrange(i as int, fs@.len() as int)),
    decreases fs@.len() - i,
{
    let ghost suffix = fs.deep_view().subrange(i as int, fs@.len() as int);
    if i == fs.len() {
        let r: Vec<String> = Vec::new();
        proof {
            assert(suffix =~= Seq::<NSInterfaceV>::empty());
            assert(r.deep_view() =~= ser_ifaces(suffix));
        }
        return r;
    }
    let mut v = iface_tokens(&fs[i]);
    let ghost pre_vec = v;
    let mut tail = ifaces_tokens(fs, i + 1);
    let ghost tail_vec = tail;
    v.append(&mut tail);
    proof {
        lemma_append_deep_view(v, pre_vec, tail_vec);
        assert(suffix[0] == fs.deep_view()[i as int]);
        assert(suffix.subrange(1, suffix.len() as int) =~= fs.deep_view().subrange(
            i + 1,
            fs@.len() as int,
        ));
        assert(v.deep_view() =~= ser_ifaces(suffix));
    }
    v
}

fn namespace_tokens(n: &Namespace) -> (r: Vec<String>)
    ensures
        r.deep_view() == ser_namespace(n@),
{
    let mut v: Vec<String> = Vec::new();
    push_arg(&mut v, esc_str(n.name.as_str()));
    push_arg(&mut v, u64_to_dec(n.interfaces.len() as u64));
    let ghost pre1 = v;
    let mut ifs = ifaces_tokens(&n.interfaces, 0);
    let ghost ifs_vec = ifs;
    v.append(&mut ifs);
    proof {
        lemma_append_deep_view(v, pre1, ifs_vec);
        assert(n.interfaces.deep_view().subrange(0, n.interfaces@.len() as int)
            =~= n@.interfaces);
    }
    push_arg(&mut v, u64_to_dec(n.config.len() as u64));
    let ghost pre2 = v;
    let mut ls = lines_tokens(&n.config, 0);
    let ghost ls_vec = ls;
    v.append(&mut ls);
    proof {
        lemma_append_deep_view(v, pre2, ls_vec);
        assert(n.config.deep_view().subrange(0, n.config@.len() as int) =~= n@.config);
        assert(v.deep_view() =~= ser_namespace(n@));
    }
    v
}

fn endpoint_tokens(e: &Endpoint) -> (r: Vec<String>)
    ensures
        r.deep_view() == ser_endpoint(e@),
{
    let mut v: Vec<String> = Vec::new();
    push_arg(&mut v, esc_str(e.name.as_str()));
    push_arg(&mut v, opt_token(&e.port));
    push_arg(&mut v, proto_token(&e.protocol));
    proof {
        assert(v.deep_view() =~= ser_endpoint(e@));
    }
    v
}

fn cable_tokens(c: &Cable) -> (r: Vec<String>)
    ensures
        r.deep_view() == ser_cable(c@),
{
    let mut v: Vec<String> = Vec::new();
    push_arg(&mut v, esc_str(c.name.as_str()));
    let ghost pre1 = v;
    let mut ea = endpoint_tokens(&c.a);
    let ghost ea_vec = ea;
    v.append(&mut ea);
    proof {
        lemma_append_deep_view(v, pre1, ea_vec);
    }
    let ghost pre2 = v;
    let mut eb = endpoint_tokens(&c.b);
    let ghost eb_vec = eb;
    v.append(&mut eb);
    proof {
        lemma_append_deep_view(v, pre2, eb_vec);
    }
    push_arg(&mut v, bool_token(c.wirefilter));
    push_arg(&mut v, u64_to_dec(c.config.len() as u64));
    let ghost pre3 = v;
    let mut ls = lines_tokens(&c.config, 0);
    let ghost ls_vec = ls;
    v.append(&mut ls);
    proof {
        lemma_append_deep_view(v, pre3, ls_vec);
        assert(c.config.deep_view().subrange(0, c.config@.len() as int) =~= c@.config);
        assert(v.deep_view() =~= ser_cable(c@));
    }
    v
}

fn slirp_tokens(s: &Slirp) -> (r: Vec<String>)
    ensures
        r.deep_view() == ser_slirp(s@),
{
    let mut v: Vec<String> = Vec::new();
    push_arg(&mut v, esc_str(s.name.as_str()));
    proof {
        assert(v.deep_view() =~= ser_slirp(s@));
    }
    v
}

fn vxvde_tokens(x: &VXVDE) -> (r: Vec<String>)
    ensures
        r.deep_view() == ser_vxvde(x@),
{
    let mut v: Vec<String> = Vec::new();
    push_arg(&mut v, esc_str(x.name.as_str()));
    push_arg(&mut v, opt_token(&x.addr));
    let pt: String = match x.port {
        None => {
            let r = String::from_str("-");
            proof {
                reveal_strlit("-");
                assert(r@ =~= seq!['-']);
            }
            r
        },
        Some(p) => {
            let mut r = String::from_str("+");
            r.append(u64_to_dec(p as u64).as_str());
            proof {
                reveal_strlit("+");
                assert(r@ =~= seq!['+'] + dec_of(p as nat));
            }
            r
        },
    };
    push_arg(&mut v, pt);
    proof {
        assert(v.deep_view() =~= ser_vxvde(x@));
    }
    v
}

fn switches_tokens(ss: &Vec<Switch>, i: usize) -> (r: Vec<String>)
    requires
        i <= ss@.len(),
    ensures
        r.deep_view() == ser_switches(ss.deep_view().subrange(i as int, ss@.len() as int)),
    decreases ss@.len() - i,
{
    let ghost suffix = ss.deep_view().subrange(i as int, ss@.len() as int);
    if i == ss.len() {
        let r: Vec<String> = Vec::new();
        proof {
            assert(suffix =~= Seq::<SwitchV>::empty());
            assert(r.deep_view() =~= ser_switches(suffix));
        }
        return r;
    }
    let mut v = switch_tokens(&ss[i]);
    let ghost pre_vec = v;
    let mut tail = switches_tokens(ss, i + 1);
    let ghost tail_vec = tail;
    v.append(&mut tail);
    proof {
        lemma_append_deep_view(v, pre_vec, tail_vec);
        assert(suffix[0] == ss.deep_view()[i as int]);
        assert(suffix.subrange(1, suffix.len() as int) =~= ss.deep_view().subrange(
            i + 1,
            ss@.len() as int,
        ));
        assert(v.deep_view() =~= ser_switches(suffix));
    }
    v
}

fn namespaces_tokens(ns: &Vec<Namespace>, i: usize) -> (r: Vec<String>)
    requires
        i <= ns@.len(),
    ensures
        r.deep_view() == ser_namespaces(ns.deep_view().subrange(i as int, ns@.len() as int)),
    decreases ns@.len() - i,
{
    let ghost suffix = ns.deep_view().subrange(i as int, ns@.len() as int);
    if i == ns.len() {
        let r: Vec<String> = Vec::new();
        proof {
            assert(suffix =~= Seq::<NamespaceV>::empty());
            assert(r.deep_view() =~= ser_namespaces(suffix));
        }
        return r;
    }
    let mut v = namespace_tokens(&ns[i]);
    let ghost pre_vec = v;
    let mut tail = namespaces_tokens(ns, i + 1);
    let ghost tail_vec = tail;
    v.append(&mut tail);
    proof {
        lemma_append_deep_view(v, pre_vec, tail_vec);
        assert(suffix[0] == ns.deep_view()[i as int]);
        assert(suffix.subrange(1, suffix.len() as int) =~= ns.deep_view().subrange(
            i + 1,
            ns@.len() as int,
        ));
        assert(v.deep_view() =~= ser_namespaces(suffix));
    }
    v
}

fn cables_tokens(cs: &Vec<Cable>, i: usize) -> (r: Vec<String>)
    requires
        i <= cs@.len(),
    ensures
        r.deep_view() == ser_cables(cs.deep_view().subrange(i as int, cs@.len() as int)),
    decreases cs@.len() - i,
{
    let ghost suffix = cs.deep_view().subrange(i as int, cs@.len() as int);
    if i == cs.len() {
        let r: Vec<String> = Vec::new();
        proof {
            assert(suffix =~= Seq::<CableV>::empty());
            assert(r.deep_view() =~= ser_cables(suffix));
        }
        return r;
    }
    let mut v = cable_tokens(&cs[i]);
    let ghost pre_vec = v;
    let mut tail = cables_tokens(cs, i + 1);
    let ghost tail_vec = tail;
    v.append(&mut tail);
    proof {
        lemma_append_deep_view(v, pre_vec, tail_vec);
        assert(suffix[0] == cs.deep_view()[i as int]);
        assert(suffix.subrange(1, suffix.len() as int) =~= cs.deep_view().subrange(
            i + 1,
            cs@.len() as int,
        ));
        assert(v.deep_view() =~= ser_cables(suffix));
    }
    v
}

fn slirps_tokens(ss: &Vec<Slirp>, i: usize) -> (r: Vec<String>)
    requires
        i <= ss@.len(),
    ensures
        r.deep_view() == ser_slirps(ss.deep_view().subrange(i as int, ss@.len() as int)),
    decreases ss@.len() - i,
{
    let ghost suffix = ss.deep_view().subrange(i as int, ss@.len() as int);
    if i == ss.len() {
        let r: Vec<String> = Vec::new();
        proof {
            assert(suffix =~= Seq::<SlirpV>::empty());
            assert(r.deep_view() =~= ser_slirps(suffix));
        }
        return r;
    }
    let mut v = slirp_tokens(&ss[i]);
    let ghost pre_vec = v;
    let mut tail = slirps_tokens(ss, i + 1);
    let ghost tail_vec = tail;
    v.append(&mut tail);
    proof {
        lemma_append_deep_view(v, pre_vec, tail_vec);
        assert(suffix[0] == ss.deep_view()[i as int]);
        assert(suffix.subrange(1, suffix.len() as int) =~= ss.deep_view().subrange(
            i + 1,
            ss@.len() as int,
        ));
        assert(v.deep_view() =~= ser_slirps(suffix));
    }
    v
}

fn vxvdes_tokens(vs: &Vec<VXVDE>, i: usize) -> (r: Vec<String>)
    requires
        i <= vs@.len(),
    ensures
        r.deep_view() == ser_vxvdes(vs.deep_view().subrange(i as int, vs@.len() as int)),
    decreases vs@.len() - i,
{
    let ghost suffix = vs.deep_view().subrange(i as int, vs@.len() as int);
    if i == vs.len() {
        let r: Vec<String> = Vec::new();
        proof {
            assert(suffix =~= Seq::<VXVDEV>::empty());
            assert(r.deep_view() =~= ser_vxvdes(suffix));
        }
        return r;
    }
    let mut v = vxvde_tokens(&vs[i]);
    let ghost pre_vec = v;
    let mut tail = vxvdes_tokens(vs, i + 1);
    let ghost tail_vec = tail;
    v.append(&mut tail);
    proof {
        lemma_append_deep_view(v, pre_vec, tail_vec);
        assert(suffix[0] == vs.deep_view()[i as int]);
        assert(suffix.subrange(1, suffix.len() as int) =~= vs.deep_view().subrange(
            i + 1,
            vs@.len() as int,
        ));
        assert(v.deep_view() =~= ser_vxvdes(suffix));
    }
    v
}

fn join_exec(ts: &Vec<String>, i: usize) -> (r: String)
    requires
        i <= ts@.len(),
    ensures
        r@ == join_tokens(ts.deep_view().subrange(i as int, ts@.len() as int)),
    decreases ts@.len() - i,
{
    let ghost suffix = ts.deep_view().subrange(i as int, ts@.len() as int);
    if i == ts.len() {
        proof {
            assert(suffix =~= Seq::<Seq<char>>::empty());
        }
        return String::new();
    }
    let mut out = ts[i].clone();
    out.append("\n");
    out.append(join_exec(ts, i + 1).as_str());
    proof {
        reveal_strlit("\n");
        assert(suffix[0] == ts.deep_view()[i as int]);
        assert(suffix.subrange(1, suffix.len() as int) =~= ts.deep_view().subrange(
            i + 1,
            ts@.len() as int,
        ));
        assert(out@ =~= join_tokens(suffix));
    }
    out
}

impl Topology {
    /// Serialize this topology to its document.
    pub fn to_string(&self) -> (r: String)
        ensures
            r@ == topology_doc(self@),
    {
        let mut ts: Vec<String> = Vec::new();
        push_arg(&mut ts, u64_to_dec(self.switches.len() as u64));
        let ghost p1 = ts;
        let mut sw = switches_tokens(&self.switches, 0);
        let ghost sw_vec = sw;
        ts.append(&mut sw);
        proof {
            lemma_append_deep_view(ts, p1, sw_vec);
            assert(self.switches.deep_view().subrange(0, self.switches@.len() as int)
                =~= self@.switches);
        }
        push_arg(&mut ts, u64_to_dec(self.namespaces.len() as u64));
        let ghost p2 = ts;
        let mut nsv = namespaces_tokens(&self.namespaces, 0);
        let ghost ns_vec = nsv;
        ts.append(&mut nsv);
        proof {
            lemma_append_deep_view(ts, p2, ns_vec);
            assert(self.namespaces.deep_view().subrange(0, self.namespaces@.len() as int)
                =~= self@.namespaces);
        }
        push_arg(&mut ts, u64_to_dec(self.cables.len() as u64));
        let ghost p3 = ts;
        let mut cbv = cables_tokens(&self.cables, 0);
        let ghost cb_vec = cbv;
        ts.append(&mut cbv);
        proof {
            lemma_append_deep_view(ts, p3, cb_vec);
            assert(self.cables.deep_view().subrange(0, self.cables@.len() as int)
                =~= self@.cables);
        }
        push_arg(&mut ts, u64_to_dec(self.slirps.len() as u64));
        let ghost p4 = ts;
        let mut slv = slirps_tokens(&self.slirps, 0);
        let ghost sl_vec = slv;
        ts.append(&mut slv);
        proof {
            lemma_append_deep_view(ts, p4, sl_vec);
            assert(self.slirps.deep_view().subrange(0, self.slirps@.len() as int)
                =~= self@.slirps);
        }
        push_arg(&mut ts, u64_to_dec(self.vxvdes.len() as u64));
        let ghost p5 = ts;
        let mut vxv = vxvdes_tokens(&self.vxvdes, 0);
        let ghost vx_vec = vxv;
        ts.append(&mut vxv);
        proof {
            lemma_append_deep_view(ts, p5, vx_vec);
            assert(self.vxvdes.deep_view().subrange(0, self.vxvdes@.len() as int)
                =~= self@.vxvdes);
            assert(ts.deep_view() =~= ser_topology(self@));
        }
        let r = join_exec(&ts, 0);
        proof {
            assert(ts.deep_view().subrange(0, ts@.len() as int) =~= ser_topology(self@));
        }
        r
    }
}

// ---------------------------------------------------------------------
// The executable decoder.
// ---------------------------------------------------------------------
fn p_bool(t: &str) -> (r: Option<bool>)
    ensures
        match r {
            Some(b) => parse_bool(t@) == Some(b),
            None => parse_bool(t@) is None,
        },
{
    proof {
        reveal_strlit("1");
        reveal_strlit("0");
        assert("1"@ =~= seq!['1']);
        assert("0"@ =~= seq!['0']);
    }
    if str_eq(t, "1") {
        Some(true)
    } else if str_eq(t, "0") {
        Some(false)
    } else {
        proof {
            if t@ =~= seq!['1'] {
                assert(t@ == "1"@);
            }
            if t@ =~= seq!['0'] {
                assert(t@ == "0"@);
            }
        }
        None
    }
}

fn p_proto(t: &str) -> (r: Option<VdeConnProtocols>)
    ensures
        match r {
            Some(p) => parse_proto(t@) == Some(p),
            None => parse_proto(t@) is None,
        },
{
    proof {
        reveal_strlit("v");
        reveal_strlit("p");
        assert("v"@ =~= seq!['v']);
        assert("p"@ =~= seq!['p']);
    }
    if str_eq(t, "v") {
        Some(VdeConnProtocols::VDE)
    } else if str_eq(t, "p") {
        Some(VdeConnProtocols::PTP)
    } else {
        proof {
            if t@ =~= seq!['v'] {
                assert(t@ == "v"@);
            }
            if t@ =~= seq!['p'] {
                assert(t@ == "p"@);
            }
        }
        None
    }
}

fn p_opt(t: &str) -> (r: Option<Option<String>>)
    ensures
        match r {
            Some(o) => parse_opt_tok(t@) == Some(o.deep_view()),
            None => parse_opt_tok(t@) is None,
        },
{
    proof {
        reveal_strlit("-");
        assert("-"@ =~= seq!['-']);
    }
    if str_eq(t, "-") {
        return Some(None);
    }
    proof {
        if t@ =~= seq!['-'] {
            assert(t@ == "-"@);
        }
    }
    let n = t.unicode_len();
    if n >= 1 && t.get_char(0) == '+' {
        let tail = t.substring_char(1, n);
        proof {
            assert(tail@ == t@.subrange(1, t@.len() as int));
        }
        match unesc_str(tail) {
            Some(v) => Some(Some(v)),
            None => None,
        }
    } else {
        None
    }
}

fn p_u16opt(t: &str) -> (r: Option<Option<u16>>)
    ensures
        match r {
            Some(o) => parse_u16_opt(t@) == Some(o),
            None => parse_u16_opt(t@) is None,
        },
{
    proof {
        reveal_strlit("-");
        assert("-"@ =~= seq!['-']);
    }
    if str_eq(t, "-") {
        return Some(None);
    }
    proof {
        if t@ =~= seq!['-'] {
            assert(t@ == "-"@);
        }
    }
    let n = t.unicode_len();
    if n >= 1 && t.get_char(0) == '+' {
        let d = t.substring_char(1, n);
        proof {
            assert(d@ == t@.subrange(1, t@.len() as int));
        }
        match parse_u64(d) {
            Some(v) => {
                if v <= 0xFFFF {
                    Some(Some(v as u16))
                } else {
                    None
                }
            },
            None => None,
        }
    } else {
        None
    }
}

fn p_lines(ts: &Vec<String>, i: usize, n: u64) -> (r: Option<(Vec<String>, usize)>)
    requires
        i <= ts@.len(),
    ensures
        match r {
            Some(v) => parse_lines(ts.deep_view(), i as int, n as nat) == Some(
                (v.0.deep_view(), v.1 as int),
            ) && i <= v.1 <= ts@.len(),
            None => parse_lines(ts.deep_view(), i as int, n as nat) is None,
        },
    decreases n,
{
    if n == 0 {
        let v: Vec<String> = Vec::new();
        proof {
            assert(v.deep_view() =~= Seq::<Seq<char>>::empty());
        }
        return Some((v, i));
    }
    if i == ts.len() {
        return None;
    }
    let l = match unesc_str(ts[i].as_str()) {
        Some(l) => l,
        None => {
            return None;
        },
    };
    match p_lines(ts, i + 1, n - 1) {
        Some((mut v, j)) => {
            let ghost pre_vec = v;
            let ghost elem_g = l;
            v.insert(0, l);
            proof {
                crate::strutil::lemma_insert0_deep_view(v, pre_vec, elem_g);
            }
            Some((v, j))
        },
        None => None,
    }
}

fn p_switch(ts: &Vec<String>, i: usize) -> (r: Option<(Switch, usize)>)
    requires
        i <= ts@.len(),
    ensures
        match r {
            Some(v) => parse_switch(ts.deep_view(), i as int) == Some((v.0@, v.1 as int)) && i
                <= v.1 <= ts@.len(),
            None => parse_switch(ts.deep_view(), i as int) is None,
        },
{
    if ts.len() < 4 || i > ts.len() - 4 {
        return None;
    }
    let name = match unesc_str(ts[i].as_str()) {
        Some(v) => v,
        None => {
            return None;
        },
    };
    let ports = match parse_u64(ts[i + 1].as_str()) {
        Some(v) => v,
        None => {
            return None;
        },
    };
    let hub = match p_bool(ts[i + 2].as_str()) {
        Some(v) => v,
        None => {
            return None;
        },
    };
    let n = match parse_u64(ts[i + 3].as_str()) {
        Some(v) => v,
        None => {
            return None;
        },
    };
    if ports > 0xFFFF_FFFF {
        return None;
    }
    match p_lines(ts, i + 4, n) {
        Some((ls, j)) => Some(
            (Switch { name, config: ls, ports: ports as u32, hub }, j),
        ),
        None => None,
    }
}

fn p_iface(ts: &Vec<String>, i: usize) -> (r: Option<(NSInterface, usize)>)
    requires
        i <= ts@.len(),
    ensures
        match r {
            Some(v) => parse_iface(ts.deep_view(), i as int) == Some((v.0@, v.1 as int)) && i
                <= v.1 <= ts@.len(),
            None => parse_iface(ts.deep_view(), i as int) is None,
        },
{
    if ts.len() < 3 || i > ts.len() - 3 {
        return None;
    }
    let name = match unesc_str(ts[i].as_str()) {
        Some(v) => v,
        None => {
            return None;
        },
    };
    let ip = match p_opt(ts[i + 1].as_str()) {
        Some(v) => v,
        None => {
            return None;
        },
    };
    let gateway = match p_opt(ts[i + 2].as_str()) {
        Some(v) => v,
        None => {
            return None;
        },
    };
    Some((NSInterface { name, ip, gateway }, i + 3))
}

fn p_ifaces(ts: &Vec<String>, i: usize, n: u64) -> (r: Option<(Vec<NSInterface>, usize)>)
    requires
        i <= ts@.len(),
    ensures
        match r {
            Some(v) => parse_ifaces(ts.deep_view(), i as int, n as nat) == Some(
                (v.0.deep_view(), v.1 as int),
            ) && i <= v.1 <= ts@.len(),
            None => parse_ifaces(ts.deep_view(), i as int, n as nat) is None,
        },
    decreases n,
{
    if n == 0 {
        let v: Vec<NSInterface> = Vec::new();
        proof {
            assert(v.deep_view() =~= Seq::<NSInterfaceV>::empty());
        }
        return Some((v, i));
    }
    let (f, j) = match p_iface(ts, i) {
        Some(v) => v,
        None => {
            return None;
        },
    };
    match p_ifaces(ts, j, n - 1) {
        Some((mut v, k)) => {
            let ghost pre_vec = v;
            let ghost elem_g = f;
            v.insert(0, f);
            proof {
                crate::strutil::lemma_insert0_deep_view(v, pre_vec, elem_g);
            }
            Some((v, k))
        },
        None => None,
    }
}

fn p_namespace(ts: &Vec<String>, i: usize) -> (r: Option<(Namespace, usize)>)
    requires
        i <= ts@.len(),
    ensures
        match r {
            Some(v) => parse_namespace(ts.deep_view(), i as int) == Some((v.0@, v.1 as int)) && i
                <= v.1 <= ts@.len(),
            None => parse_namespace(ts.deep_view(), i as int) is None,
        },
{
    if ts.len() < 2 || i > ts.len() - 2 {
        return None;
    }
    let name = match unesc_str(ts[i].as_str()) {
        Some(v) => v,
        None => {
            return None;
        },
    };
    let nif = match parse_u64(ts[i + 1].as_str()) {
        Some(v) => v,
        None => {
            return None;
        },
    };
    let (interfaces, j) = match p_ifaces(ts, i + 2, nif) {
        Some(v) => v,
        None => {
            return None;
        },
    };
    if j == ts.len() {
        return None;
    }
    let nc = match parse_u64(ts[j].as_str()) {
        Some(v) => v,
        None => {
            return None;
        },
    };
    match p_lines(ts, j + 1, nc) {
        Some((config, k)) => Some((Namespace { name, interfaces, config }, k)),
        None => None,
    }
}

fn p_endpoint(ts: &Vec<String>, i: usize) -> (r: Option<(Endpoint, usize)>)
    requires
        i <= ts@.len(),
    ensures
        match r {
            Some(v) => parse_endpoint(ts.deep_view(), i as int) == Some((v.0@, v.1 as int)) && i
                <= v.1 <= ts@.len(),
            None => parse_endpoint(ts.deep_view(), i as int) is None,
        },
{
    if ts.len() < 3 || i > ts.len() - 3 {
        return None;
    }
    let name = match unesc_str(ts[i].as_str()) {
        Some(v) => v,
        None => {
            return None;
        },
    };
    let port = match p_opt(ts[i + 1].as_str()) {
        Some(v) => v,
        None => {
            return None;
        },
    };
    let protocol = match p_proto(ts[i + 2].as_str()) {
        Some(v) => v,
        None => {
            return None;
        },
    };
    Some((Endpoint { name, port, protocol }, i + 3))
}

fn p_cable(ts: &Vec<String>, i: usize) -> (r: Option<(Cable, usize)>)
    requires
        i <= ts@.len(),
    ensures
        match r {
            Some(v) => parse_cable(ts.deep_view(), i as int) == Some((v.0@, v.1 as int)) && i
                <= v.1 <= ts@.len(),
            None => parse_cable(ts.deep_view(), i as int) is None,
        },
{
    if i == ts.len() {
        return None;
    }
    let name = match unesc_str(ts[i].as_str()) {
        Some(v) => v,
        None => {
            return None;
        },
    };
    let (a, j) = match p_endpoint(ts, i + 1) {
        Some(v) => v,
        None => {
            return None;
        },
    };
    let (b, k) = match p_endpoint(ts, j) {
        Some(v) => v,
        None => {
            return None;
        },
    };
    if ts.len() < 2 || k > ts.len() - 2 {
        return None;
    }
    let wirefilter = match p_bool(ts[k].as_str()) {
        Some(v) => v,
        None => {
            return None;
        },
    };
    let nc = match parse_u64(ts[k + 1].as_str()) {
        Some(v) => v,
        None => {
            return None;
        },
    };
    match p_lines(ts, k + 2, nc) {
        Some((config, m)) => Some((Cable { name, a, b, wirefilter, config }, m)),
        None => None,
    }
}

fn p_slirp(ts: &Vec<String>, i: usize) -> (r: Option<(Slirp, usize)>)
    requires
        i <= ts@.len(),
    ensures
        match r {
            Some(v) => parse_slirp(ts.deep_view(), i as int) == Some((v.0@, v.1 as int)) && i
                <= v.1 <= ts@.len(),
            None => parse_slirp(ts.deep_view(), i as int) is None,
        },
{
    if i == ts.len() {
        return None;
    }
    match unesc_str(ts[i].as_str()) {
        Some(name) => Some((Slirp { name }, i + 1)),
        None => None,
    }
}

fn p_vxvde(ts: &Vec<String>, i: usize) -> (r: Option<(VXVDE, usize)>)
    requires
        i <= ts@.len(),
    ensures
        match r {
            Some(v) => parse_vxvde(ts.deep_view(), i as int) == Some((v.0@, v.1 as int)) && i
                <= v.1 <= ts@.len(),
            None => parse_vxvde(ts.deep_view(), i as int) is None,
        },
{
    if ts.len() < 3 || i > ts.len() - 3 {
        return None;
    }
    let name = match unesc_str(ts[i].as_str()) {
        Some(v) => v,
        None => {
            return None;
        },
    };
    let addr = match p_opt(ts[i + 1].as_str()) {
        Some(v) => v,
        None => {
            return None;
        },
    };
    let port = match p_u16opt(ts[i + 2].as_str()) {
        Some(v) => v,
        None => {
            return None;
        },
    };
    Some((VXVDE { name, addr, port }, i + 3))
}

fn p_switches(ts: &Vec<String>, i: usize, n: u64) -> (r: Option<(Vec<Switch>, usize)>)
    requires
        i <= ts@.len(),
    ensures
        match r {
            Some(v) => parse_switches(ts.deep_view(), i as int, n as nat) == Some(
                (v.0.deep_view(), v.1 as int),
            ) && i <= v.1 <= ts@.len(),
            None => parse_switches(ts.deep_view(), i as int, n as nat) is None,
        },
    decreases n,
{
    if n == 0 {
        let v: Vec<Switch> = Vec::new();
        proof {
            assert(v.deep_view() =~= Seq::<SwitchV>::empty());
        }
        return Some((v, i));
    }
    let (s, j) = match p_switch(ts, i) {
        Some(v) => v,
        None => {
            return None;
        },
    };
    match p_switches(ts, j, n - 1) {
        Some((mut v, k)) => {
            let ghost pre_vec = v;
            let ghost elem_g = s;
            v.insert(0, s);
            proof {
                crate::strutil::lemma_insert0_deep_view(v, pre_vec, elem_g);
            }
            Some((v, k))
        },
        None => None,
    }
}

fn p_namespaces(ts: &Vec<String>, i: usize, n: u64) -> (r: Option<(Vec<Namespace>, usize)>)
    requires
        i <= ts@.len(),
    ensures
        match r {
            Some(v) => parse_namespaces(ts.deep_view(), i as int, n as nat) == Some(
                (v.0.deep_view(), v.1 as int),
            ) && i <= v.1 <= ts@.len(),
            None => parse_namespaces(ts.deep_view(), i as int, n as nat) is None,
        },
    decreases n,
{
    if n == 0 {
        let v: Vec<Namespace> = Vec::new();
        proof {
            assert(v.deep_view() =~= Seq::<NamespaceV>::empty());
        }
        return Some((v, i));
    }
    let (s, j) = match p_namespace(ts, i) {
        Some(v) => v,
        None => {
            return None;
        },
    };
    match p_namespaces(ts, j, n - 1) {
        Some((mut v, k)) => {
            let ghost pre_vec = v;
            let ghost elem_g = s;
            v.insert(0, s);
            proof {
                crate::strutil::lemma_insert0_deep_view(v, pre_vec, elem_g);
            }
            Some((v, k))
        },
        None => None,
    }
}

fn p_cables(ts: &Vec<String>, i: usize, n: u64) -> (r: Option<(Vec<Cable>, usize)>)
    requires
        i <= ts@.len(),
    ensures
        match r {
            Some(v) => parse_cables(ts.deep_view(), i as int, n as nat) == Some(
                (v.0.deep_view(), v.1 as int),
            ) && i <= v.1 <= ts@.len(),
            None => parse_cables(ts.deep_view(), i as int, n as nat) is None,
        },
    decreases n,
{
    if n == 0 {
        let v: Vec<Cable> = Vec::new();
        proof {
            assert(v.deep_view() =~= Seq::<CableV>::empty());
        }
        return Some((v, i));
    }
    let (s, j) = match p_cable(ts, i) {
        Some(v) => v,
        None => {
            return None;
        },
    };
    match p_cables(ts, j, n - 1) {
        Some((mut v, k)) => {
            let ghost pre_vec = v;
            let ghost elem_g = s;
            v.insert(0, s);
            proof {
                crate::strutil::lemma_insert0_deep_view(v, pre_vec, elem_g);
            }
            Some((v, k))
        },
        None => None,
    }
}

fn p_slirps(ts: &Vec<String>, i: usize, n: u64) -> (r: Option<(Vec<Slirp>, usize)>)
    requires
        i <= ts@.len(),
    ensures
        match r {
            Some(v) => parse_slirps(ts.deep_view(), i as int, n as nat) == Some(
                (v.0.deep_view(), v.1 as int),
            ) && i <= v.1 <= ts@.len(),
            None => parse_slirps(ts.deep_view(), i as int, n as nat) is None,
        },
    decreases n,
{
    if n == 0 {
        let v: Vec<Slirp> = Vec::new();
        proof {
            assert(v.deep_view() =~= Seq::<SlirpV>::empty());
        }
        return Some((v, i));
    }
    let (s, j) = match p_slirp(ts, i) {
        Some(v) => v,
        None => {
            return None;
        },
    };
    match p_slirps(ts, j, n - 1) {
        Some((mut v, k)) => {
            let ghost pre_vec = v;
            let ghost elem_g = s;
            v.insert(0, s);
            proof {
                crate::strutil::lemma_insert0_deep_view(v, pre_vec, elem_g);
            }
            Some((v, k))
        },
        None => None,
    }
}

fn p_vxvdes(ts: &Vec<String>, i: usize, n: u64) -> (r: Option<(Vec<VXVDE>, usize)>)
    requires
        i <= ts@.len(),
    ensures
        match r {
            Some(v) => parse_vxvdes(ts.deep_view(), i as int, n as nat) == Some(
                (v.0.deep_view(), v.1 as int),
            ) && i <= v.1 <= ts@.len(),
            None => parse_vxvdes(ts.deep_view(), i as int, n as nat) is None,
        },
    decreases n,
{
    if n == 0 {
        let v: Vec<VXVDE> = Vec::new();
        proof {
            assert(v.deep_view() =~= Seq::<VXVDEV>::empty());
        }
        return Some((v, i));
    }
    let (s, j) = match p_vxvde(ts, i) {
        Some(v) => v,
        None => {
            return None;
        },
    };
    match p_vxvdes(ts, j, n - 1) {
        Some((mut v, k)) => {
            let ghost pre_vec = v;
            let ghost elem_g = s;
            v.insert(0, s);
            proof {
                crate::strutil::lemma_insert0_deep_view(v, pre_vec, elem_g);
            }
            Some((v, k))
        },
        None => None,
    }
}

impl Topology {
    /// Parse a topology document; rejects any document the encoder could
    /// not have produced.
    pub fn from_string(s: &str) -> (r: Option<Topology>)
        ensures
            match r {
                Some(t) => parse_doc(s@) == Some(t@),
                None => parse_doc(s@) is None,
            },
    {
        let mut ts = split_char(s, '\n');
        let last = ts.len() - 1;
        if !ts[last].as_str().is_empty() {
            return None;
        }
        let ghost pre_vec = ts;
        ts.pop();
        proof {
            assert forall|k: int| 0 <= k < ts@.len() implies ts.deep_view()[k]
                == pre_vec.deep_view().drop_last()[k] by {
                assert(ts@[k] == pre_vec@[k]);
                assert(pre_vec.deep_view()[k] == pre_vec@[k].deep_view());
            }
            assert(ts.deep_view() =~= pre_vec.deep_view().drop_last());
            assert(split_on(s@, '\n').drop_last() == ts.deep_view());
        }

        if ts.len() == 0 {
            return None;
        }
        let nsw = match parse_u64(ts[0].as_str()) {
            Some(v) => v,
            None => {
                return None;
            },
        };
        let (switches, i) = match p_switches(&ts, 1, nsw) {
            Some(v) => v,
            None => {
                return None;
            },
        };
        if i == ts.len() {
            return None;
        }
        let nns = match parse_u64(ts[i].as_str()) {
            Some(v) => v,
            None => {
                return None;
            },
        };
        let (namespaces, j) = match p_namespaces(&ts, i + 1, nns) {
            Some(v) => v,
            None => {
                return None;
            },
        };
        if j == ts.len() {
            return None;
        }
        let ncb = match parse_u64(ts[j].as_str()) {
            Some(v) => v,
            None => {
                return None;
            },
        };
        let (cables, k) = match p_cables(&ts, j + 1, ncb) {
            Some(v) => v,
            None => {
                return None;
            },
        };
        if k == ts.len() {
            return None;
        }
        let nsl = match parse_u64(ts[k].as_str()) {
            Some(v) => v,
            None => {
                return None;
            },
        };
        let (slirps, m) = match p_slirps(&ts, k + 1, nsl) {
            Some(v) => v,
            None => {
                return None;
            },
        };
        if m == ts.len() {
            return None;
        }
        let nvx = match parse_u64(ts[m].as_str()) {
            Some(v) => v,
            None => {
                return None;
            },
        };
        let (vxvdes, w) = match p_vxvdes(&ts, m + 1, nvx) {
            Some(v) => v,
            None => {
                return None;
            },
        };
        if w != ts.len() {
            return None;
        }
        Some(Topology { switches, namespaces, cables, slirps, vxvdes })
    }
}

} // verus!
