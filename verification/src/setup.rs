//! Registering this program as the handler of request links.

use crate::text::{matches_at, occurs_at};
use vstd::prelude::*;
use vstd::string::*;

verus! {

/// One value to write into the system's registry.
#[derive(Clone, Debug)]
pub struct RegistryValue {
    /// Key under the current user's root.
    pub key: String,
    /// Name of the value; empty for the key's default value.
    pub name: String,
    pub value: String,
}

/// A registry value as plain values.
pub ghost struct RegistryValueView {
    pub key: Seq<char>,
    pub name: Seq<char>,
    pub value: Seq<char>,
}

impl View for RegistryValue {
    type V = RegistryValueView;

    open spec fn view(&self) -> RegistryValueView {
        RegistryValueView { key: self.key@, name: self.name@, value: self.value@ }
    }
}

/// The path of the executable without the prefix that marks a verbatim path.
pub open spec fn plain_path(executable: Seq<char>) -> Seq<char> {
    if occurs_at(executable, "\\\\?\\"@, 0) {
        executable.subrange(4, executable.len() as int)
    } else {
        executable
    }
}

/// The command that the system runs for a link: the executable, then the
/// link, each in quotes.
pub open spec fn command_of(executable: Seq<char>) -> Seq<char> {
    "\""@ + plain_path(executable) + "\" \"%1\""@
}

/// The values that register the executable as the handler of request links.
pub open spec fn registration(executable: Seq<char>) -> Seq<RegistryValueView> {
    seq![
        RegistryValueView {
            key: "SOFTWARE\\Classes\\nxm"@,
            name: ""@,
            value: "URL:NexusMods"@,
        },
        RegistryValueView {
            key: "SOFTWARE\\Classes\\nxm"@,
            name: "URL Protocol"@,
            value: ""@,
        },
        RegistryValueView {
            key: "SOFTWARE\\Classes\\nxm\\DefaultIcon"@,
            name: ""@,
            value: ""@,
        },
        RegistryValueView {
            key: "SOFTWARE\\Classes\\nxm\\shell\\open\\command"@,
            name: ""@,
            value: command_of(executable),
        },
    ]
}

/// The values of `values` as plain values.
pub open spec fn value_views(values: Seq<RegistryValue>) -> Seq<RegistryValueView> {
    values.map_values(|v: RegistryValue| v@)
}

fn entry(key: &str, name: &str, text: String) -> (r: RegistryValue)
    ensures
        r@ == (RegistryValueView { key: key@, name: name@, value: text@ }),
{
    RegistryValue { key: String::from_str(key), name: String::from_str(name), value: text }
}

/// What to write so that request links open `executable`. Nothing is
/// written where the handler is registered already, unless `reset` asks for
/// it again.
pub fn setup(reset: bool, registered: bool, executable: &str) -> (r: Option<Vec<RegistryValue>>)
    ensures
        r is None == (registered && !reset),
        match r {
            Some(values) => value_views(values@) == registration(executable@),
            None => true,
        },
{
    if registered && !reset {
        return None;
    }
    let prefix = "\\\\?\\";
    proof {
        reveal_strlit("\\\\?\\");
    }
    let n: usize = executable.unicode_len();
    let plain: &str = if n >= 4 && matches_at(executable, prefix, 0) {
        executable.substring_char(4, n)
    } else {
        executable
    };
    let mut command = String::from_str("\"");
    command.append(plain);
    command.append("\" \"%1\"");
    let mut values: Vec<RegistryValue> = Vec::new();
    values.push(entry("SOFTWARE\\Classes\\nxm", "", String::from_str("URL:NexusMods")));
    values.push(entry("SOFTWARE\\Classes\\nxm", "URL Protocol", String::new()));
    values.push(entry("SOFTWARE\\Classes\\nxm\\DefaultIcon", "", String::new()));
    values.push(entry("SOFTWARE\\Classes\\nxm\\shell\\open\\command", "", command));
    proof {
        reveal_strlit("");
        assert(""@ =~= Seq::<char>::empty());
        assert(plain@ == plain_path(executable@));
        assert(command@ == command_of(executable@));
        let got = value_views(values@);
        let want = registration(executable@);
        assert(got.len() == 4);
        assert(got[0] == want[0]);
        assert(got[1] == want[1]);
        assert(got[2] == want[2]);
        assert(got[3] == want[3]);
        assert(got =~= want);
    }
    Some(values)
}

} // verus!
