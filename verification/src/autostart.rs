//! How the program is started together with the system.
use crate::paths::{join_path, joined};
use crate::text::{to_chars, to_text};
use crate::unicode::{encode_utf16_units, lemma_utf16_round_trip, utf16_decoded, utf16_encoded};
use std::path::PathBuf;
use vstd::prelude::*;

verus! {

/// The folder whose programs start with the system, below the folder for the
/// data of applications.
pub open spec fn startup_place(app_data: PathBuf) -> PathBuf {
    joined(app_data, r"Microsoft\Windows\Start Menu\Programs\Startup"@)
}

/// The folder whose programs start with the system.
pub fn startup_folder(app_data: &PathBuf) -> (r: PathBuf)
    ensures
        r == startup_place(*app_data),
{
    join_path(app_data, r"Microsoft\Windows\Start Menu\Programs\Startup")
}

/// The script that starts the program, in that folder.
pub fn startup_script(folder: &PathBuf) -> (r: PathBuf)
    ensures
        r == joined(*folder, "BetWall.vbs"@),
{
    join_path(folder, "BetWall.vbs")
}

// ---------------------------------------------------------------------------
// The script
// ---------------------------------------------------------------------------

/// A text with every quote doubled.
pub open spec fn doubled(s: Seq<char>) -> Seq<char>
    decreases s.len(),
{
    if s.len() == 0 {
        Seq::empty()
    } else if s.last() == '"' {
        doubled(s.drop_last()).push('"').push('"')
    } else {
        doubled(s.drop_last()).push(s.last())
    }
}

/// A text with every pair of quotes read as one quote.
pub open spec fn undoubled(s: Seq<char>) -> Seq<char>
    decreases s.len(),
{
    if s.len() == 0 {
        Seq::empty()
    } else if s.len() >= 2 && s.last() == '"' && s[s.len() - 2] == '"' {
        undoubled(s.drop_last().drop_last()).push('"')
    } else {
        undoubled(s.drop_last()).push(s.last())
    }
}

/// Reading the pairs of quotes as one gives a text back.
pub proof fn lemma_doubled_read_back(s: Seq<char>)
    ensures
        undoubled(doubled(s)) == s,
    decreases s.len(),
{
    if s.len() > 0 {
        lemma_doubled_read_back(s.drop_last());
        let head = doubled(s.drop_last());
        if s.last() == '"' {
            assert(doubled(s).drop_last().drop_last() =~= head);
        } else {
            assert(doubled(s).drop_last() =~= head);
        }
        assert(s.drop_last().push(s.last()) =~= s);
    }
}

/// The script that runs a program, without a window and without waiting.
pub open spec fn script(exe: Seq<char>) -> Seq<char> {
    "' BetWall autostart\r\nCreateObject(\"Wscript.Shell\").Run \"\"\""@ + doubled(exe)
        + "\"\"\", 0, False\r\n"@
}

/// A text with every quote doubled.
fn double_quotes(s: &str) -> (r: String)
    ensures
        r@ == doubled(s@),
{
    let v = to_chars(s);
    let mut out: Vec<char> = Vec::new();
    assert(v@.take(0) =~= Seq::empty());
    for i in 0..v.len()
        invariant
            out@ == doubled(v@.take(i as int)),
    {
        assert(v@.take(i + 1).drop_last() =~= v@.take(i as int));
        if v[i] == '"' {
            out.push('"');
        }
        out.push(v[i]);
    }
    assert(v@.take(v@.len() as int) =~= v@);
    to_text(&out)
}

/// The script that runs a program.
pub fn vbs_script(exe: &str) -> (r: String)
    ensures
        r@ == script(exe@),
{
    let mut r = "' BetWall autostart\r\nCreateObject(\"Wscript.Shell\").Run \"\"\"".to_owned();
    r.append(double_quotes(exe).as_str());
    r.append("\"\"\", 0, False\r\n");
    r
}

// ---------------------------------------------------------------------------
// The registry
// ---------------------------------------------------------------------------

/// The key whose values are run at the start.
pub const RUN_SUBKEY: &'static str = r"Software\Microsoft\Windows\CurrentVersion\Run";

/// The name of the value.
pub const VALUE_NAME: &'static str = "BetWall";

/// UTF-16 units as bytes, the less significant first.
pub open spec fn unit_bytes(units: Seq<u16>) -> Seq<u8>
    decreases units.len(),
{
    if units.len() == 0 {
        Seq::empty()
    } else {
        unit_bytes(units.drop_last()).push((units.last() % 256) as u8).push(
            (units.last() / 256) as u8,
        )
    }
}

/// The command that runs a program: its path between quotes.
pub open spec fn quoted(exe: Seq<char>) -> Seq<char> {
    "\""@ + exe + "\""@
}

/// The value that runs a program: the command in UTF-16, ended by zero.
pub open spec fn run_value(exe: Seq<char>) -> Seq<u8> {
    unit_bytes(utf16_encoded(quoted(exe)).push(0))
}

/// The value that runs a program.
pub fn registry_value(exe: &str) -> (r: Vec<u8>)
    ensures
        r@ == run_value(exe@),
{
    let mut command = "\"".to_owned();
    command.append(exe);
    command.append("\"");
    let mut units = encode_utf16_units(command.as_str());
    units.push(0);
    let mut out: Vec<u8> = Vec::new();
    assert(units@.take(0) =~= Seq::empty());
    for i in 0..units.len()
        invariant
            out@ == unit_bytes(units@.take(i as int)),
    {
        assert(units@.take(i + 1).drop_last() =~= units@.take(i as int));
        out.push((units[i] % 256) as u8);
        out.push((units[i] / 256) as u8);
    }
    assert(units@.take(units@.len() as int) =~= units@);
    out
}

/// The UTF-16 units in pairs of bytes.
pub open spec fn byte_units(bytes: Seq<u8>) -> Seq<u16> {
    Seq::new(bytes.len() / 2, |i: int| (bytes[2 * i] + bytes[2 * i + 1] * 256) as u16)
}

/// The value in the registry is the command that runs the program, with a zero
/// behind it.
pub proof fn lemma_run_value_read_back(exe: Seq<char>)
    ensures
        byte_units(run_value(exe)).len() > 0,
        byte_units(run_value(exe)).last() == 0,
        utf16_decoded(byte_units(run_value(exe)).drop_last()) == quoted(exe),
{
    let units = utf16_encoded(quoted(exe)).push(0);
    lemma_unit_bytes_read_back(units);
    assert(units.drop_last() =~= utf16_encoded(quoted(exe)));
    lemma_utf16_round_trip(quoted(exe));
}

proof fn lemma_unit_bytes_read_back(units: Seq<u16>)
    ensures
        unit_bytes(units).len() == 2 * units.len(),
        byte_units(unit_bytes(units)) == units,
    decreases units.len(),
{
    let bytes = unit_bytes(units);
    if units.len() > 0 {
        lemma_unit_bytes_read_back(units.drop_last());
        let head = unit_bytes(units.drop_last());
        assert forall|i: int| 0 <= i < units.len() implies byte_units(bytes)[i] == units[i] by {
            if i < units.len() - 1 {
                assert(bytes[2 * i] == head[2 * i]);
                assert(bytes[2 * i + 1] == head[2 * i + 1]);
                assert(byte_units(head)[i] == units.drop_last()[i]);
            }
        }
    }
    assert(byte_units(bytes) =~= units);
}

} // verus!
