//! The command line: `-ip <ADDRESS>` and `-port <SPEC>`, in either order.

use vstd::prelude::*;
use crate::address::AddressValue;
use crate::error::ScanError;
use crate::scan::{request_of_text, ScanRequest};
use crate::text::chars_of;

verus! {

/// The fewest arguments, the program's name included, that name a scan.
pub const MIN_ARGS: usize = 5;

/// The flag in front of the target address.
pub open spec fn ip_flag() -> Seq<char> {
    seq!['-', 'i', 'p']
}

/// The flag in front of the port specification.
pub open spec fn port_flag() -> Seq<char> {
    seq!['-', 'p', 'o', 'r', 't']
}

/// The values that a command line gives to the two flags.
pub ghost struct FlagValues {
    /// The value of `-ip`, if the flag occurs.
    pub ip: Option<Seq<char>>,
    /// The value of `-port`, if the flag occurs.
    pub port: Option<Seq<char>>,
}

/// The values of the flags among the arguments from index `at` on, or
/// `None` where a flag is the last argument and so has no value.
///
/// The arguments are read from left to right. A flag takes the argument
/// after it as its value, whatever that argument is; an argument that is
/// neither a flag nor a flag's value is passed over. Where a flag occurs
/// more than once, its first value counts.
pub open spec fn flags_from(args: Seq<Seq<char>>, at: int) -> Option<FlagValues>
    decreases args.len() - at,
{
    if at < 0 || at >= args.len() {
        Some(FlagValues { ip: None, port: None })
    } else if args[at] == ip_flag() {
        if at + 1 >= args.len() {
            None
        } else {
            match flags_from(args, at + 2) {
                Some(later) => Some(FlagValues { ip: Some(args[at + 1]), ..later }),
                None => None,
            }
        }
    } else if args[at] == port_flag() {
        if at + 1 >= args.len() {
            None
        } else {
            match flags_from(args, at + 2) {
                Some(later) => Some(FlagValues { port: Some(args[at + 1]), ..later }),
                None => None,
            }
        }
    } else {
        flags_from(args, at + 1)
    }
}

/// The scan that a command line asks for, the program's name included as
/// its first argument, or the reason why there is none.
///
/// Fewer than five arguments, a flag without a value and a missing flag are
/// errors of usage. Then the address is looked at, then the ports.
pub open spec fn request_of_args(args: Seq<Seq<char>>) -> Result<
    (AddressValue, Seq<u16>),
    ScanError,
> {
    if args.len() < MIN_ARGS {
        Err(ScanError::Usage)
    } else {
        match flags_from(args, 1) {
            Some(FlagValues { ip: Some(address), port: Some(ports) }) => request_of_text(
                address,
                ports,
            ),
            _ => Err(ScanError::Usage),
        }
    }
}

/// The arguments as texts.
pub open spec fn texts_of(args: Seq<String>) -> Seq<Seq<char>> {
    Seq::new(args.len(), |i: int| args[i]@)
}

/// A command line of nothing but the program's name and two flags with
/// their values gives each flag its value.
proof fn lemma_two_flags(
    args: Seq<Seq<char>>,
    first: Seq<char>,
    second: Seq<char>,
)
    requires
        args.len() == 5,
        args[1] == ip_flag() && args[3] == port_flag() || args[1] == port_flag() && args[3]
            == ip_flag(),
        args[2] == first,
        args[4] == second,
    ensures
        flags_from(args, 1) == if args[1] == ip_flag() {
            Some(FlagValues { ip: Some(first), port: Some(second) })
        } else {
            Some(FlagValues { ip: Some(second), port: Some(first) })
        },
{
    assert(ip_flag() != port_flag()) by {
        assert(ip_flag().len() != port_flag().len());
    }
    assert(flags_from(args, 5) == Some(FlagValues { ip: None, port: None }));
    assert(flags_from(args, 3) == if args[3] == ip_flag() {
        Some(FlagValues { ip: Some(second), port: None })
    } else {
        Some(FlagValues { ip: None, port: Some(second) })
    });
}

/// The two flags with their values may stand in either order.
pub proof fn lemma_flag_order(program: Seq<char>, address: Seq<char>, ports: Seq<char>)
    ensures
        request_of_args(seq![program, ip_flag(), address, port_flag(), ports]) == request_of_text(
            address,
            ports,
        ),
        request_of_args(seq![program, port_flag(), ports, ip_flag(), address]) == request_of_text(
            address,
            ports,
        ),
{
    lemma_two_flags(seq![program, ip_flag(), address, port_flag(), ports], address, ports);
    lemma_two_flags(seq![program, port_flag(), ports, ip_flag(), address], ports, address);
}

/// Which flag an argument is.
#[derive(Clone, Copy, Debug, PartialEq, Eq, Structural)]
pub enum Flag {
    /// `-ip`
    Ip,
    /// `-port`
    Port,
}

/// Tells whether an argument is one of the two flags.
pub fn read_flag(arg: &str) -> (flag: Option<Flag>)
    ensures
        flag == if arg@ == ip_flag() {
            Some(Flag::Ip)
        } else if arg@ == port_flag() {
            Some(Flag::Port)
        } else {
            None
        },
{
    let chars = chars_of(arg);
    if chars.len() == 3 && chars[0] == '-' && chars[1] == 'i' && chars[2] == 'p' {
        assert(arg@ =~= ip_flag());
        Some(Flag::Ip)
    } else if chars.len() == 5 && chars[0] == '-' && chars[1] == 'p' && chars[2] == 'o'
        && chars[3] == 'r' && chars[4] == 't' {
        assert(arg@ =~= port_flag());
        Some(Flag::Port)
    } else {
        None
    }
}

/// The values found so far, laid over those that come later.
spec fn first_wins(found: FlagValues, later: Option<FlagValues>) -> Option<FlagValues> {
    match later {
        None => None,
        Some(later) => Some(
            FlagValues {
                ip: if found.ip is Some {
                    found.ip
                } else {
                    later.ip
                },
                port: if found.port is Some {
                    found.port
                } else {
                    later.port
                },
            },
        ),
    }
}

/// Reads the command line, the program's name included as its first
/// argument, into the scan that it asks for.
pub fn parse_args(args: &[String]) -> (request: Result<ScanRequest, ScanError>)
    ensures
        match request {
            Ok(r) => request_of_args(texts_of(args@)) == Ok::<(AddressValue, Seq<u16>), ScanError>(
                (r.target_value(), r.ports_value()),
            ),
            Err(e) => request_of_args(texts_of(args@)) == Err::<
                (AddressValue, Seq<u16>),
                ScanError,
            >(e),
        },
{
    let n: usize = args.len();
    if n < MIN_ARGS {
        return Err(ScanError::Usage);
    }
    let ghost texts = texts_of(args@);
    let mut ip: Option<usize> = None;
    let mut port: Option<usize> = None;
    let mut i: usize = 1;
    while i < n
        invariant
            n == args@.len(),
            texts == texts_of(args@),
            1 <= i <= n,
            ip matches Some(k) ==> k < n,
            port matches Some(k) ==> k < n,
            flags_from(texts, 1) == first_wins(
                FlagValues {
                    ip: match ip {
                        Some(k) => Some(texts[k as int]),
                        None => None,
                    },
                    port: match port {
                        Some(k) => Some(texts[k as int]),
                        None => None,
                    },
                },
                flags_from(texts, i as int),
            ),
        decreases n - i,
    {
        assert(texts[i as int] == args@[i as int]@);
        match read_flag(args[i].as_str()) {
            Some(flag) => {
                if i + 1 >= n {
                    return Err(ScanError::Usage);
                }
                match flag {
                    Flag::Ip => {
                        if ip.is_none() {
                            ip = Some(i + 1);
                        }
                    },
                    Flag::Port => {
                        if port.is_none() {
                            port = Some(i + 1);
                        }
                    },
                }
                i += 2;
            },
            None => {
                i += 1;
            },
        }
    }
    match (ip, port) {
        (Some(a), Some(p)) => {
            assert(texts[a as int] == args@[a as int]@);
            assert(texts[p as int] == args@[p as int]@);
            ScanRequest::from_text(args[a].as_str(), args[p].as_str())
        },
        _ => Err(ScanError::Usage),
    }
}

} // verus!
