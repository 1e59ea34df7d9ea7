//! What the program leaves on the system, and how it gets there.
use crate::autostart::{
    doubled, run_value, script, startup_place, unit_bytes, RUN_SUBKEY, VALUE_NAME,
};
use crate::config::{config_file, config_folder};
use crate::install::{install_folder, install_step, installed_program, InstallAction, InstallEvent};
use crate::paths::{base_folder, joined, path_of};
use crate::text::decimal;
use crate::tray::{event_opens, panel_address, TrayEvent};
use crate::unicode::utf16_encoded;
use std::path::PathBuf;
use vstd::prelude::*;

verus! {

/// The program is put below the folder for local data, and the configuration below
/// that for settings. Where the system names none, the folder that the program
/// runs in takes its place.
pub proof fn lemma_places(base: PathBuf)
    ensures
        base_folder(Some(base)) == base,
        base_folder(None) == path_of("."@),
        install_folder(Some(base)) == joined(base, "BetWall"@),
        install_folder(None) == joined(path_of("."@), "BetWall"@),
        installed_program(Some(base)) == joined(joined(base, "BetWall"@), "betwall.exe"@),
        installed_program(None) == joined(joined(path_of("."@), "BetWall"@), "betwall.exe"@),
        startup_place(base) == joined(base, r"Microsoft\Windows\Start Menu\Programs\Startup"@),
        config_folder(Some(base)) == joined(base, "betwall"@),
        config_folder(None) == joined(path_of("."@), "betwall"@),
        config_file(Some(base)) == joined(joined(base, "betwall"@), "config.json"@),
        config_file(None) == joined(joined(path_of("."@), "betwall"@), "config.json"@),
{
}

/// Each event at the start has its one answer: a copy is made only where the
/// program runs from elsewhere, in a folder that is there, and is handed over to
/// once it has been made. Whatever fails, this program goes on.
pub proof fn lemma_start_goes_on()
    ensures
        install_step(InstallEvent::NotFound) == InstallAction::GoOn,
        install_step(InstallEvent::InPlace) == InstallAction::UnmarkAndGoOn,
        install_step(InstallEvent::Elsewhere) == InstallAction::MakeFolder,
        install_step(InstallEvent::NoFolder) == InstallAction::GoOn,
        install_step(InstallEvent::Folder) == InstallAction::Copy,
        install_step(InstallEvent::NotCopied) == InstallAction::GoOn,
        install_step(InstallEvent::Copied) == InstallAction::HandOver,
{
}

/// Quotes are doubled one by one, and nothing else changes.
pub proof fn lemma_doubled_by_character(s: Seq<char>, c: char)
    ensures
        doubled(Seq::empty()).len() == 0,
        doubled(s + seq!['"']) == doubled(s) + seq!['"', '"'],
        c != '"' ==> doubled(s + seq![c]) == doubled(s) + seq![c],
{
    assert((s + seq!['"']).drop_last() =~= s);
    assert((s + seq![c]).drop_last() =~= s);
    assert(doubled(s + seq!['"']) =~= doubled(s) + seq!['"', '"']);
    if c != '"' {
        assert(doubled(s + seq![c]) =~= doubled(s) + seq![c]);
    }
}

/// The script runs the program by its path, between quotes of its own, with no
/// window, and does not wait for it.
pub proof fn lemma_script_runs_program(exe: Seq<char>)
    ensures
        script(exe) == "' BetWall autostart\r\n"@
            + "CreateObject(\"Wscript.Shell\").Run \"\"\""@ + doubled(exe)
            + "\"\"\", 0, False\r\n"@,
{
    reveal_strlit("' BetWall autostart\r\n");
    reveal_strlit("CreateObject(\"Wscript.Shell\").Run \"\"\"");
    reveal_strlit("' BetWall autostart\r\nCreateObject(\"Wscript.Shell\").Run \"\"\"");
    assert("' BetWall autostart\r\nCreateObject(\"Wscript.Shell\").Run \"\"\""@
        =~= "' BetWall autostart\r\n"@ + "CreateObject(\"Wscript.Shell\").Run \"\"\""@);
}

/// The value in the registry is the path between quotes, in UTF-16 with the less
/// significant byte of each unit first, ended by a zero unit.
pub proof fn lemma_run_value_bytes(exe: Seq<char>, units: Seq<u16>, u: u16)
    ensures
        run_value(exe) == unit_bytes(utf16_encoded(seq!['"'] + exe + seq!['"'])) + seq![0u8, 0u8],
        unit_bytes(Seq::empty()).len() == 0,
        unit_bytes(units + seq![u]) == unit_bytes(units) + seq![
            (u % 256) as u8,
            (u / 256) as u8,
        ],
{
    reveal_strlit("\"");
    assert("\""@ =~= seq!['"']);
    let text = utf16_encoded(seq!['"'] + exe + seq!['"']);
    assert(text.push(0).drop_last() =~= text);
    assert(run_value(exe) =~= unit_bytes(text) + seq![0u8, 0u8]);
    assert((units + seq![u]).drop_last() =~= units);
    assert(unit_bytes(units + seq![u]) =~= unit_bytes(units) + seq![
        (u % 256) as u8,
        (u / 256) as u8,
    ]);
}

/// The value stands among those that are run at the start, under the name of the
/// program.
pub proof fn lemma_run_value_place()
    ensures
        RUN_SUBKEY@ == r"Software\Microsoft\Windows\CurrentVersion\Run"@,
        VALUE_NAME@ == "BetWall"@,
{
}

/// The panel is at its port of this machine. A double click on the icon opens it,
/// and so does its entry in the menu; no other entry and no other event does.
pub proof fn lemma_tray_opens_panel(port: u16, id: String, open_id: Seq<char>)
    ensures
        panel_address(port) == "http://127.0.0.1:"@ + decimal(port as nat) + "/"@,
        event_opens(TrayEvent::DoubleClick, open_id),
        event_opens(TrayEvent::Menu { id }, open_id) <==> id@ == open_id,
        !event_opens(TrayEvent::Other, open_id),
{
}

} // verus!
