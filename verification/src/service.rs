//! The systemd user unit that runs the watcher.
use vstd::prelude::*;
use crate::address::BluetoothAddress;
use crate::order::address_views;
use crate::text::{from_chars, is_alphanumeric, is_alphanumeric_char, join, push_str, to_chars};

verus! {

/// Characters that need no quoting in an `ExecStart=` argument.
pub open spec fn is_plain(c: char) -> bool {
    is_alphanumeric(c) || c == '/' || c == '.' || c == '_' || c == '-' || c == ':' || c == '='
}

/// A character as it is written inside double quotes: backslash and double
/// quote are escaped with a backslash, `$` is doubled.
pub open spec fn quoted_char(c: char) -> Seq<char> {
    if c == '\\' {
        seq!['\\', '\\']
    } else if c == '"' {
        seq!['\\', '"']
    } else if c == '$' {
        seq!['$', '$']
    } else {
        seq![c]
    }
}

pub open spec fn quoted_chars(s: Seq<char>) -> Seq<char>
    decreases s.len(),
{
    if s.len() == 0 {
        Seq::empty()
    } else {
        quoted_chars(s.drop_last()) + quoted_char(s.last())
    }
}

/// An argument as written in a unit file: unchanged when every character is
/// plain, else quoted.
pub open spec fn unit_arg(s: Seq<char>) -> Seq<char> {
    if forall|i: int| 0 <= i < s.len() ==> is_plain(#[trigger] s[i]) {
        s
    } else {
        seq!['"'] + quoted_chars(s) + seq!['"']
    }
}

fn is_plain_char(c: char) -> (r: bool)
    ensures
        r == is_plain(c),
{
    is_alphanumeric_char(c) || c == '/' || c == '.' || c == '_' || c == '-' || c == ':' || c == '='
}

/// Writes an argument for `ExecStart=`, quoting it when needed.
pub fn systemd_arg(value: &str) -> (r: String)
    ensures
        r@ == unit_arg(value@),
{
    let chars = to_chars(value);
    let n = chars.len();
    let mut i: usize = 0;
    let mut plain = true;
    while i < n
        invariant
            i <= n,
            n == chars@.len(),
            chars@ == value@,
            plain == forall|k: int| 0 <= k < i ==> is_plain(#[trigger] chars@[k]),
        decreases n - i,
    {
        if !is_plain_char(chars[i]) {
            plain = false;
        }
        i = i + 1;
    }
    if plain {
        return from_chars(chars.as_slice());
    }
    let mut out: Vec<char> = Vec::new();
    out.push('"');
    let mut j: usize = 0;
    while j < n
        invariant
            j <= n,
            n == chars@.len(),
            out@ == seq!['"'] + quoted_chars(chars@.take(j as int)),
        decreases n - j,
    {
        let c = chars[j];
        if c == '\\' {
            out.push('\\');
            out.push('\\');
        } else if c == '"' {
            out.push('\\');
            out.push('"');
        } else if c == '$' {
            out.push('$');
            out.push('$');
        } else {
            out.push(c);
        }
        proof {
            let t = chars@.take(j + 1);
            assert(t.drop_last() =~= chars@.take(j as int));
            assert(t.last() == c);
            assert(out@ =~= seq!['"'] + quoted_chars(t));
        }
        j = j + 1;
    }
    out.push('"');
    assert(chars@.take(n as int) =~= chars@);
    assert(out@ =~= seq!['"'] + quoted_chars(chars@) + seq!['"']);
    from_chars(out.as_slice())
}

pub const UNIT_HEAD: &'static str = "[Unit]\nDescription=Bluetooth device connection tracker\nDocumentation=man:systemd.service(5)\n\n[Service]\nType=simple\nExecStart=";

pub const UNIT_TAIL: &'static str = "\nRestart=always\nRestartSec=10\n\n[Install]\nWantedBy=default.target\n";

/// The words of `ExecStart=`: the program, `--state-dir <dir> watch`, and
/// `--address <address>` for each address.
pub open spec fn exec_args(exe: Seq<char>, state_dir: Seq<char>, addresses: Seq<Seq<char>>) -> Seq<
    Seq<char>,
> {
    seq![unit_arg(exe), unit_arg("--state-dir"@), unit_arg(state_dir), unit_arg("watch"@)]
        + address_args(addresses)
}

pub open spec fn address_args(addresses: Seq<Seq<char>>) -> Seq<Seq<char>>
    decreases addresses.len(),
{
    if addresses.len() == 0 {
        Seq::empty()
    } else {
        address_args(addresses.drop_last()) + seq![unit_arg("--address"@), unit_arg(addresses.last())]
    }
}

/// The unit file that runs the watcher for the addresses, with the state in
/// `state_dir` (an absolute path).
pub open spec fn unit_text(exe: Seq<char>, state_dir: Seq<char>, addresses: Seq<Seq<char>>) -> Seq<
    char,
> {
    UNIT_HEAD@ + join(exec_args(exe, state_dir, addresses), seq![' ']) + UNIT_TAIL@
}

fn push_joined(out: &mut Vec<char>, parts: &Vec<String>)
    requires
        parts@.len() > 0,
    ensures
        final(out)@ == old(out)@ + join(parts@.map_values(|p: String| p@), seq![' ']),
{
    let ghost views = parts@.map_values(|p: String| p@);
    let ghost start = out@;
    let n = parts.len();
    let mut i: usize = 0;
    while i < n
        invariant
            0 < n == parts@.len(),
            i <= n,
            views == parts@.map_values(|p: String| p@),
            out@ == start + join(views.take(i as int), seq![' ']),
        decreases n - i,
    {
        proof {
            assert(views.take(i + 1) =~= views.take(i as int).push(views[i as int]));
            if i > 0 {
                assert(views.take(i + 1).drop_last() =~= views.take(i as int));
            }
        }
        if i > 0 {
            out.push(' ');
        }
        push_str(out, parts[i].as_str());
        proof {
            if i == 0 {
                assert(views.take(1)[0] == views[0]);
            }
            assert(out@ =~= start + join(views.take(i + 1), seq![' ']));
        }
        i = i + 1;
    }
    assert(views.take(n as int) =~= views);
}

/// Renders the unit file for the given program, addresses and state
/// directory (already made absolute).
pub fn render_unit(exe: &str, addresses: &Vec<BluetoothAddress>, state_dir: &str) -> (r: String)
    ensures
        r@ == unit_text(exe@, state_dir@, address_views(addresses@)),
{
    let ghost addrs = address_views(addresses@);
    let mut args: Vec<String> = Vec::new();
    args.push(systemd_arg(exe));
    args.push(systemd_arg("--state-dir"));
    args.push(systemd_arg(state_dir));
    args.push(systemd_arg("watch"));
    let ghost fixed = seq![unit_arg(exe@), unit_arg("--state-dir"@), unit_arg(state_dir@), unit_arg("watch"@)];
    assert(args@.map_values(|p: String| p@) =~= fixed);
    let n = addresses.len();
    let mut i: usize = 0;
    while i < n
        invariant
            i <= n,
            n == addresses@.len(),
            addrs == address_views(addresses@),
            args@.map_values(|p: String| p@) == fixed + address_args(addrs.take(i as int)),
        decreases n - i,
    {
        let ghost before = args@.map_values(|p: String| p@);
        args.push(systemd_arg("--address"));
        args.push(systemd_arg(addresses[i].as_str()));
        proof {
            let t = addrs.take(i + 1);
            assert(t.drop_last() =~= addrs.take(i as int));
            assert(t.last() == addresses@[i as int]@);
            assert(args@.map_values(|p: String| p@) =~= before + seq![
                unit_arg("--address"@),
                unit_arg(addresses@[i as int]@),
            ]);
        }
        i = i + 1;
    }
    assert(addrs.take(n as int) =~= addrs);
    let mut out: Vec<char> = Vec::new();
    push_str(&mut out, UNIT_HEAD);
    push_joined(&mut out, &args);
    push_str(&mut out, UNIT_TAIL);
    from_chars(out.as_slice())
}

} // verus!
