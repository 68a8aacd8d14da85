//! The settings of the daemon: the list of controlled ports and the knock
//! sequence, each taken from the command line, else from the environment, else a
//! default, then read as numbers.
use crate::pattern::{
    match_port_liste, re_matching_sequence, regex_is_match, PORT_LIST_PATTERN, SEQUENCE_PATTERN,
};
use vstd::prelude::*;

verus! {

/// The characters of `s`, in order.
pub fn chars_of(s: &str) -> (v: Vec<char>)
    ensures
        v@ == s@,
{
    let mut v: Vec<char> = Vec::new();
    for c in it: s.chars()
        invariant
            it.seq() == s@,
            v@ == s@.take(it.index() as int),
    {
        v.push(c);
    }
    v
}

/// The ports controlled when no valid list is given.
pub const DEFAULT_PORTS: &'static str = "22";

/// The knock sequence used when no valid sequence is given.
pub const DEFAULT_KNOCK_SEQ: &'static str = "16001,16002,16003,16004,16005";

/// `s` cut at each comma, as `str::split(",")` cuts it: `n` commas give `n + 1`
/// pieces, some of them possibly empty.
pub open spec fn split_on_commas(s: Seq<char>) -> Seq<Seq<char>>
    decreases s.len(),
{
    if s.len() == 0 {
        seq![Seq::empty()]
    } else {
        let prev = split_on_commas(s.drop_last());
        if s.last() == ',' {
            prev.push(Seq::empty())
        } else {
            prev.update(prev.len() - 1, prev.last().push(s.last()))
        }
    }
}

/// Whether `c` is one of the ASCII digits `0` to `9`.
pub open spec fn is_ascii_digit(c: char) -> bool {
    '0' <= c <= '9'
}

/// The number written in decimal with the ASCII digits `d`.
pub open spec fn digits_value(d: Seq<char>) -> nat
    decreases d.len(),
{
    if d.len() == 0 {
        0
    } else {
        digits_value(d.drop_last()) * 10 + (d.last() as nat - '0' as nat) as nat
    }
}

/// `f` without its leading `+`, if it has one.
pub open spec fn unsigned_part(f: Seq<char>) -> Seq<char> {
    if f.len() > 0 && f[0] == '+' {
        f.drop_first()
    } else {
        f
    }
}

/// What `u16::from_str` gives for `f`: an optional `+` then at least one ASCII
/// digit, for a value of at most `u16::MAX`; `None` for anything else.
pub open spec fn parse_u16(f: Seq<char>) -> Option<u16> {
    let d = unsigned_part(f);
    if d.len() > 0 && (forall|i: int| 0 <= i < d.len() ==> is_ascii_digit(#[trigger] d[i]))
        && digits_value(d) <= u16::MAX {
        Some(digits_value(d) as u16)
    } else {
        None
    }
}

/// The numbers of a comma separated list, each read as `u16::from_str` reads it;
/// `None` when one of them is not a `u16`.
pub open spec fn port_list(s: Seq<char>) -> Option<Seq<u16>> {
    let fields = split_on_commas(s);
    if forall|i: int| 0 <= i < fields.len() ==> #[trigger] parse_u16(fields[i]) is Some {
        Some(fields.map_values(|f: Seq<char>| parse_u16(f)->0))
    } else {
        None
    }
}

/// The setting in force: the one of the command line when it is valid, else the
/// one of the environment when there is one and it is valid, else the default.
pub open spec fn chosen_setting(
    arg: Seq<char>,
    arg_ok: bool,
    env: Option<Seq<char>>,
    env_ok: bool,
    default: Seq<char>,
) -> Seq<char> {
    if arg_ok {
        arg
    } else if env is Some && env_ok {
        env->0
    } else {
        default
    }
}

/// The text of an optional string.
pub open spec fn opt_view(s: Option<&str>) -> Option<Seq<char>> {
    match s {
        Some(t) => Some(t@),
        None => None,
    }
}

/// The text of the list of ports in force, from the command line argument `arg`
/// and the optional environment variable `env`.
pub open spec fn ports_text(arg: Seq<char>, env: Option<Seq<char>>) -> Seq<char> {
    chosen_setting(
        arg,
        regex_is_match(PORT_LIST_PATTERN@, arg),
        env,
        env is Some && regex_is_match(PORT_LIST_PATTERN@, env->0),
        DEFAULT_PORTS@,
    )
}

/// The text of the knock sequence in force, from the command line argument `arg`
/// and the optional environment variable `env`.
pub open spec fn knock_seq_text(arg: Seq<char>, env: Option<Seq<char>>) -> Seq<char> {
    chosen_setting(
        arg,
        regex_is_match(SEQUENCE_PATTERN@, arg),
        env,
        env is Some && regex_is_match(SEQUENCE_PATTERN@, env->0),
        DEFAULT_KNOCK_SEQ@,
    )
}

/// Picks the setting in force: `arg` when `arg_ok`, else `env` when it is given
/// and `env_ok`, else `default`.
pub fn select_setting(
    arg: &str,
    arg_ok: bool,
    env: Option<&str>,
    env_ok: bool,
    default: &str,
) -> (r: String)
    ensures
        r@ == chosen_setting(arg@, arg_ok, opt_view(env), env_ok, default@),
{
    if arg_ok {
        return arg.to_owned();
    }
    match env {
        Some(e) => {
            if env_ok {
                return e.to_owned();
            }
        },
        None => {},
    }
    default.to_owned()
}

/// The list of ports in force, as text: the command line argument when it is a
/// valid list, else the environment variable when it is set and valid, else `22`.
pub fn ports_string(arg: &str, env: Option<&str>) -> (r: String)
    ensures
        r@ == ports_text(arg@, opt_view(env)),
{
    let arg_ok = match_port_liste(arg);
    let env_ok = match env {
        Some(e) => match_port_liste(e),
        None => false,
    };
    select_setting(arg, arg_ok, env, env_ok, DEFAULT_PORTS)
}

/// The knock sequence in force, as text: the command line argument when it is a
/// valid sequence, else the environment variable when it is set and valid, else
/// `16001,16002,16003,16004,16005`.
pub fn knock_seq_string(arg: &str, env: Option<&str>) -> (r: String)
    ensures
        r@ == knock_seq_text(arg@, opt_view(env)),
{
    let arg_ok = re_matching_sequence(arg);
    let env_ok = match env {
        Some(e) => re_matching_sequence(e),
        None => false,
    };
    select_setting(arg, arg_ok, env, env_ok, DEFAULT_KNOCK_SEQ)
}

/// `s` cut at each comma, as `str::split(",")` cuts it.
pub fn split_commas(s: &Vec<char>) -> (fields: Vec<Vec<char>>)
    ensures
        fields.deep_view() == split_on_commas(s@),
{
    let mut done: Vec<Vec<char>> = Vec::new();
    let mut cur: Vec<char> = Vec::new();
    assert(s@.take(0) =~= Seq::<char>::empty());
    assert(done.deep_view().push(cur@) =~= split_on_commas(s@.take(0)));
    for i in 0..s.len()
        invariant
            done.deep_view().push(cur@) == split_on_commas(s@.take(i as int)),
    {
        let c = s[i];
        assert(s@.take(i + 1).drop_last() == s@.take(i as int));
        assert(s@.take(i + 1).last() == c);
        let ghost prev = done.deep_view();
        if c == ',' {
            let finished = cur;
            done.push(finished);
            cur = Vec::new();
            assert(finished.deep_view() =~= finished@);
            assert(done.deep_view() =~= prev.push(finished@));
            assert(done.deep_view().push(cur@) =~= split_on_commas(s@.take(i + 1)));
        } else {
            cur.push(c);
            assert(done.deep_view().push(cur@) =~= split_on_commas(s@.take(i + 1)));
        }
    }
    let ghost prev = done.deep_view();
    let last = cur;
    done.push(last);
    assert(last.deep_view() =~= last@);
    assert(done.deep_view() =~= prev.push(last@));
    assert(s@.take(s@.len() as int) == s@);
    done
}

proof fn lemma_digits_value_grows(d: Seq<char>, j: int)
    requires
        0 <= j <= d.len(),
        forall|i: int| 0 <= i < d.len() ==> is_ascii_digit(#[trigger] d[i]),
    ensures
        digits_value(d.take(j)) <= digits_value(d),
    decreases d.len(),
{
    if j < d.len() {
        assert(d.drop_last().take(j) == d.take(j));
        lemma_digits_value_grows(d.drop_last(), j);
    } else {
        assert(d.take(j) == d);
    }
}

/// Reads the number `f` as `u16::from_str` does: an optional `+` then at least
/// one ASCII digit, for a value of at most `u16::MAX`.
pub fn parse_port_number(f: &Vec<char>) -> (r: Option<u16>)
    ensures
        r == parse_u16(f@),
{
    let start: usize = if f.len() > 0 && f[0] == '+' {
        1
    } else {
        0
    };
    let ghost d = unsigned_part(f@);
    assert(d == f@.subrange(start as int, f@.len() as int));
    if start == f.len() {
        return None;
    }
    let mut value: u32 = 0;
    let mut i: usize = start;
    assert(d.take(0) =~= Seq::<char>::empty());
    while i < f.len()
        invariant
            start <= i <= f.len(),
            d == f@.subrange(start as int, f@.len() as int),
            d == unsigned_part(f@),
            forall|j: int| 0 <= j < i - start ==> is_ascii_digit(#[trigger] d[j]),
            value == digits_value(d.take(i - start)),
            value <= u16::MAX,
        decreases f.len() - i,
    {
        let c = f[i];
        assert(d[i - start] == c);
        if !('0' <= c && c <= '9') {
            assert(!is_ascii_digit(d[i - start]));
            return None;
        }
        assert(d.take(i - start + 1).drop_last() == d.take(i - start));
        assert(d.take(i - start + 1).last() == c);
        value = value * 10 + (c as u32 - '0' as u32);
        assert(value == digits_value(d.take(i - start + 1)));
        if value > 65535 {
            proof {
                if forall|j: int| 0 <= j < d.len() ==> is_ascii_digit(#[trigger] d[j]) {
                    lemma_digits_value_grows(d, i - start + 1);
                }
            }
            return None;
        }
        i = i + 1;
    }
    assert(d.take(d.len() as int) == d);
    Some(value as u16)
}

/// The numbers of the comma separated list `s`, or `None` when one of them is not
/// a `u16` (where the daemon stops with "parse error").
pub fn parse_port_list(s: &str) -> (r: Option<Vec<u16>>)
    ensures
        match r {
            Some(v) => port_list(s@) == Some(v@),
            None => port_list(s@) is None,
        },
{
    let chars = chars_of(s);
    let fields = split_commas(&chars);
    let ghost fv = fields.deep_view();
    let mut out: Vec<u16> = Vec::new();
    for i in 0..fields.len()
        invariant
            fv == split_on_commas(s@),
            fv == fields.deep_view(),
            out@.len() == i,
            forall|j: int| 0 <= j < i ==> #[trigger] parse_u16(fv[j]) == Some(out@[j]),
    {
        assert(fields@[i as int]@ == fv[i as int]);
        match parse_port_number(&fields[i]) {
            Some(p) => out.push(p),
            None => {
                return None;
            },
        }
    }
    assert(fv.map_values(|f: Seq<char>| parse_u16(f)->0) =~= out@);
    Some(out)
}

/// The ports controlled when no valid list is given.
pub open spec fn default_ports() -> Seq<u16> {
    seq![22u16]
}

/// The knock sequence used when no valid sequence is given.
pub open spec fn default_knock_seq() -> Seq<u16> {
    seq![16001u16, 16002u16, 16003u16, 16004u16, 16005u16]
}

/// The list of ports in force, read as numbers: the command line argument when
/// it is a valid list, else the environment variable when it is set and valid,
/// else port 22; `None` when the list chosen holds a number that is not a `u16`.
pub open spec fn ports_in_force(arg: Seq<char>, env: Option<Seq<char>>) -> Option<Seq<u16>> {
    if regex_is_match(PORT_LIST_PATTERN@, arg) {
        port_list(arg)
    } else if env is Some && regex_is_match(PORT_LIST_PATTERN@, env->0) {
        port_list(env->0)
    } else {
        Some(default_ports())
    }
}

/// The knock sequence in force, read as numbers: the command line argument when
/// it is a valid sequence, else the environment variable when it is set and
/// valid, else 16001 to 16005; `None` when the sequence chosen holds a number
/// that is not a `u16`.
pub open spec fn knock_seq_in_force(arg: Seq<char>, env: Option<Seq<char>>) -> Option<Seq<u16>> {
    if regex_is_match(SEQUENCE_PATTERN@, arg) {
        port_list(arg)
    } else if env is Some && regex_is_match(SEQUENCE_PATTERN@, env->0) {
        port_list(env->0)
    } else {
        Some(default_knock_seq())
    }
}

/// A list read in full has as many numbers as the text has fields.
proof fn lemma_port_list_len(s: Seq<char>)
    requires
        port_list(s) is Some,
    ensures
        port_list(s)->0.len() == split_on_commas(s).len(),
{
}

/// The numbers of `s`, which `port_list` reads in full.
fn read_list(s: &str) -> (v: Vec<u16>)
    requires
        port_list(s@) is Some,
    ensures
        port_list(s@) == Some(v@),
        v@.len() == split_on_commas(s@).len(),
{
    proof {
        lemma_port_list_len(s@);
    }
    parse_port_list(s).unwrap()
}

/// The list of ports to control (see `ports_in_force`): one to twenty ports.
/// The list chosen must be read in full (else the daemon stops with "parse
/// error"; `checked_ports` tells when).
pub fn ports(arg: &str, env: Option<&str>) -> (v: Vec<u16>)
    requires
        ports_in_force(arg@, opt_view(env)) is Some,
    ensures
        ports_in_force(arg@, opt_view(env)) == Some(v@),
        1 <= v@.len() <= 20,
{
    if match_port_liste(arg) {
        return read_list(arg);
    }
    match env {
        Some(e) => {
            if match_port_liste(e) {
                return read_list(e);
            }
        },
        None => {},
    }
    let mut v: Vec<u16> = Vec::new();
    v.push(22);
    assert(v@ =~= default_ports());
    v
}

/// The list of ports to control (see `ports_in_force`), or `None` when the list
/// chosen holds a number that is not a `u16`.
pub fn checked_ports(arg: &str, env: Option<&str>) -> (r: Option<Vec<u16>>)
    ensures
        match r {
            Some(v) => ports_in_force(arg@, opt_view(env)) == Some(v@) && 1 <= v@.len() <= 20,
            None => ports_in_force(arg@, opt_view(env)) is None,
        },
        !regex_is_match(PORT_LIST_PATTERN@, arg@) && (env is None || !regex_is_match(
            PORT_LIST_PATTERN@,
            env->0@,
        )) ==> (r matches Some(v) && v@ == seq![22u16]),
{
    let arg_ok = match_port_liste(arg);
    let env_ok = match env {
        Some(e) => match_port_liste(e),
        None => false,
    };
    let chosen: Option<&str> = if arg_ok {
        Some(arg)
    } else if env_ok {
        env
    } else {
        None
    };
    match chosen {
        Some(text) => {
            if parse_port_list(text).is_none() {
                return None;
            }
        },
        None => {},
    }
    Some(ports(arg, env))
}

/// The knock sequence (see `knock_seq_in_force`): five to twenty ports. The
/// sequence chosen must be read in full (else the daemon stops with "parse
/// error"; `checked_knock_seq` tells when).
pub fn knock_seq(arg: &str, env: Option<&str>) -> (v: Vec<u16>)
    requires
        knock_seq_in_force(arg@, opt_view(env)) is Some,
    ensures
        knock_seq_in_force(arg@, opt_view(env)) == Some(v@),
        5 <= v@.len() <= 20,
{
    if re_matching_sequence(arg) {
        return read_list(arg);
    }
    match env {
        Some(e) => {
            if re_matching_sequence(e) {
                return read_list(e);
            }
        },
        None => {},
    }
    let mut v: Vec<u16> = Vec::new();
    v.push(16001);
    v.push(16002);
    v.push(16003);
    v.push(16004);
    v.push(16005);
    assert(v@ =~= default_knock_seq());
    v
}

/// The knock sequence (see `knock_seq_in_force`), or `None` when the sequence
/// chosen holds a number that is not a `u16`.
pub fn checked_knock_seq(arg: &str, env: Option<&str>) -> (r: Option<Vec<u16>>)
    ensures
        match r {
            Some(v) => knock_seq_in_force(arg@, opt_view(env)) == Some(v@) && 5 <= v@.len()
                <= 20,
            None => knock_seq_in_force(arg@, opt_view(env)) is None,
        },
        !regex_is_match(SEQUENCE_PATTERN@, arg@) && (env is None || !regex_is_match(
            SEQUENCE_PATTERN@,
            env->0@,
        )) ==> (r matches Some(v) && v@ == seq![
            16001u16,
            16002u16,
            16003u16,
            16004u16,
            16005u16,
        ]),
{
    let arg_ok = re_matching_sequence(arg);
    let env_ok = match env {
        Some(e) => re_matching_sequence(e),
        None => false,
    };
    let chosen: Option<&str> = if arg_ok {
        Some(arg)
    } else if env_ok {
        env
    } else {
        None
    };
    match chosen {
        Some(text) => {
            if parse_port_list(text).is_none() {
                return None;
            }
        },
        None => {},
    }
    Some(knock_seq(arg, env))
}

/// The command line comes first: a valid argument is the setting in force,
/// whatever the environment holds; the environment is used only when the
/// argument is not valid, and then only when it is itself valid.
pub proof fn law_argument_takes_precedence(
    arg: Seq<char>,
    env: Option<Seq<char>>,
    other_env: Option<Seq<char>>,
)
    ensures
        regex_is_match(PORT_LIST_PATTERN@, arg) ==> ports_text(arg, env) == arg && ports_text(
            arg,
            other_env,
        ) == arg,
        regex_is_match(SEQUENCE_PATTERN@, arg) ==> knock_seq_text(arg, env) == arg
            && knock_seq_text(arg, other_env) == arg,
        !regex_is_match(PORT_LIST_PATTERN@, arg) && env is None ==> ports_text(arg, env)
            == DEFAULT_PORTS@,
        !regex_is_match(SEQUENCE_PATTERN@, arg) && env is None ==> knock_seq_text(arg, env)
            == DEFAULT_KNOCK_SEQ@,
        regex_is_match(PORT_LIST_PATTERN@, arg) ==> ports_in_force(arg, env) == port_list(arg)
            && ports_in_force(arg, other_env) == port_list(arg),
        regex_is_match(SEQUENCE_PATTERN@, arg) ==> knock_seq_in_force(arg, env) == port_list(arg)
            && knock_seq_in_force(arg, other_env) == port_list(arg),
        !regex_is_match(PORT_LIST_PATTERN@, arg) && env is None ==> ports_in_force(arg, env)
            == Some(default_ports()),
        !regex_is_match(SEQUENCE_PATTERN@, arg) && env is None ==> knock_seq_in_force(arg, env)
            == Some(default_knock_seq()),
{
}

/// An invalid setting never stops the daemon: when the argument is not valid and
/// the environment variable is absent or not valid either, the knock sequence in
/// force is 16001, 16002, 16003, 16004, 16005 and the ports are 22 (as texts
/// and as numbers).
pub proof fn law_invalid_settings_fall_back_to_defaults(arg: Seq<char>, env: Option<Seq<char>>)
    ensures
        !regex_is_match(SEQUENCE_PATTERN@, arg) && (env is None || !regex_is_match(
            SEQUENCE_PATTERN@,
            env->0,
        )) ==> knock_seq_in_force(arg, env) == Some(
            seq![16001u16, 16002u16, 16003u16, 16004u16, 16005u16],
        ) && knock_seq_text(arg, env) == "16001,16002,16003,16004,16005"@,
        !regex_is_match(PORT_LIST_PATTERN@, arg) && (env is None || !regex_is_match(
            PORT_LIST_PATTERN@,
            env->0,
        )) ==> ports_in_force(arg, env) == Some(seq![22u16]) && ports_text(arg, env) == "22"@,
{
}

} // verus!
