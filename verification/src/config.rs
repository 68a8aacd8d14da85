//! The configuration: the ports to control and the opening sequence.
//!
//! The configuration file (TOML) is looked for at the path given on the command
//! line, then as `.port_knocker.toml` in the user's home directory, then as
//! `/etc/port_knocker.toml`; the first one that can be read and parsed is used,
//! else the default configuration.
use vstd::prelude::*;

verus! {

/// The ports to control and the opening sequence.
#[derive(Debug)]
pub struct Config {
    pub ports_to_controls: Vec<u16>,
    pub opening_sequence: Vec<u16>,
}

/// The contents of a configuration: its ports to control and its opening sequence.
pub open spec fn config_view(c: Config) -> (Seq<u16>, Seq<u16>) {
    (c.ports_to_controls@, c.opening_sequence@)
}

/// The default configuration: port 22, opened by 16001, 16002, 16003, 16004,
/// 16005.
pub open spec fn default_config_view() -> (Seq<u16>, Seq<u16>) {
    (seq![22u16], seq![16001u16, 16002u16, 16003u16, 16004u16, 16005u16])
}

/// The first configuration found, in the order of the search.
pub open spec fn chosen_config(
    from_arg: Option<Config>,
    from_home: Option<Config>,
    from_etc: Option<Config>,
) -> (Seq<u16>, Seq<u16>) {
    match from_arg {
        Some(c) => config_view(c),
        None => match from_home {
            Some(c) => config_view(c),
            None => match from_etc {
                Some(c) => config_view(c),
                None => default_config_view(),
            },
        },
    }
}

/// The default configuration.
pub fn default_config() -> (c: Config)
    ensures
        config_view(c) == default_config_view(),
{
    let mut ports_to_controls: Vec<u16> = Vec::new();
    ports_to_controls.push(22);
    let mut opening_sequence: Vec<u16> = Vec::new();
    opening_sequence.push(16001);
    opening_sequence.push(16002);
    opening_sequence.push(16003);
    opening_sequence.push(16004);
    opening_sequence.push(16005);
    assert(ports_to_controls@ =~= seq![22u16]);
    assert(opening_sequence@ =~= seq![16001u16, 16002u16, 16003u16, 16004u16, 16005u16]);
    Config { ports_to_controls, opening_sequence }
}

/// The configuration in force, given what could be loaded from the command line
/// path, from the home directory and from `/etc` (`None` where nothing could be
/// read or parsed): the first one loaded, else the default.
pub fn load_conf(from_arg: Option<Config>, from_home: Option<Config>, from_etc: Option<Config>) -> (c:
    Config)
    ensures
        config_view(c) == chosen_config(from_arg, from_home, from_etc),
        from_arg matches Some(a) ==> c.ports_to_controls@ == a.ports_to_controls@
            && c.opening_sequence@ == a.opening_sequence@,
        from_arg is None ==> (from_home matches Some(h) ==> c.ports_to_controls@
            == h.ports_to_controls@ && c.opening_sequence@ == h.opening_sequence@),
        from_arg is None && from_home is None ==> (from_etc matches Some(e) ==> c.ports_to_controls@
            == e.ports_to_controls@ && c.opening_sequence@ == e.opening_sequence@),
        from_arg is None && from_home is None && from_etc is None ==> c.ports_to_controls@
            == seq![22u16] && c.opening_sequence@ == seq![
            16001u16,
            16002u16,
            16003u16,
            16004u16,
            16005u16,
        ],
{
    match from_arg {
        Some(c) => c,
        None => match from_home {
            Some(c) => c,
            None => match from_etc {
                Some(c) => c,
                None => default_config(),
            },
        },
    }
}

/// The configuration in force is the first one loaded, whole: its ports to
/// control and its opening sequence both come from that file; with no file
/// loaded it is port 22 opened by 16001 to 16005.
pub proof fn law_first_loaded_configuration_wins(
    from_arg: Option<Config>,
    from_home: Option<Config>,
    from_etc: Option<Config>,
)
    ensures
        from_arg matches Some(a) ==> chosen_config(from_arg, from_home, from_etc) == (
            a.ports_to_controls@,
            a.opening_sequence@,
        ),
        from_arg is None ==> (from_home matches Some(h) ==> chosen_config(
            from_arg,
            from_home,
            from_etc,
        ) == (h.ports_to_controls@, h.opening_sequence@)),
        from_arg is None && from_home is None ==> (from_etc matches Some(e) ==> chosen_config(
            from_arg,
            from_home,
            from_etc,
        ) == (e.ports_to_controls@, e.opening_sequence@)),
        from_arg is None && from_home is None && from_etc is None ==> chosen_config(
            from_arg,
            from_home,
            from_etc,
        ) == (seq![22u16], seq![16001u16, 16002u16, 16003u16, 16004u16, 16005u16]),
{
}

} // verus!
