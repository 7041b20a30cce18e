//! What the server prints, and what it does about keys that are pressed.

use vstd::prelude::*;

use crate::text::{decimal, decimal_text, same_text, texts, trim, trim_matches, Cut};

verus! {

/// Texts one after the other, with a separator between them.
pub open spec fn joined(parts: Seq<Seq<char>>, separator: Seq<char>) -> Seq<char>
    decreases parts.len(),
{
    if parts.len() == 0 {
        Seq::empty()
    } else if parts.len() == 1 {
        parts[0]
    } else {
        joined(parts.drop_last(), separator) + separator + parts.last()
    }
}

/// Joins texts.
pub fn join(parts: &Vec<String>, separator: &str) -> (s: String)
    ensures
        s@ == joined(texts(parts@), separator@),
{
    let ghost all = texts(parts@);
    let mut s = String::new();
    let mut i: usize = 0;
    assert(all.take(0) =~= Seq::empty());
    while i < parts.len()
        invariant
            i <= parts.len(),
            all == texts(parts@),
            s@ == joined(all.take(i as int), separator@),
        decreases parts.len() - i,
    {
        assert(all.take(i + 1).drop_last() == all.take(i as int));
        if i > 0 {
            s.append(separator);
        }
        let ghost before = s@;
        s.append(parts[i].as_str());
        assert(i == 0 ==> before + all[0] == all[0]);
        i = i + 1;
    }
    assert(all.take(all.len() as int) == all);
    s
}

/// The address of the server on this machine.
pub open spec fn local_address(port: u16) -> Seq<char> {
    "http://localhost:"@ + decimal(port as nat) + "/"@
}

/// Writes the address of the server on this machine.
pub fn local_url(port: u16) -> (url: String)
    ensures
        url@ == local_address(port),
{
    let mut url = "http://localhost:".to_owned();
    url.append(decimal_text(port as u64).as_str());
    url.append("/");
    url
}

/// The line of the banner that names the environment files, where there are any.
pub open spec fn environments_line(env_files: Seq<Seq<char>>) -> Seq<char> {
    if env_files.len() == 0 {
        Seq::empty()
    } else {
        "  \x1b[32m➜\x1b[0m  Environments: "@ + joined(env_files, ", "@) + "\n"@
    }
}

/// The line of the banner that gives the address on this machine.
pub open spec fn local_line(port: u16) -> Seq<char> {
    "  \x1b[32m➜\x1b[0m  Local:   \x1b[36m"@ + local_address(port) + "\x1b[0m\n"@
}

/// The line of the banner that gives the address on the network, where there is one.
pub open spec fn network_line(ip: Option<Seq<char>>, port: u16) -> Seq<char> {
    match ip {
        Some(ip) => "  \x1b[32m➜\x1b[0m  Network: \x1b[36mhttp://"@ + ip + ":"@ + decimal(
            port as nat,
        ) + "/\x1b[0m\n"@,
        None => Seq::empty(),
    }
}

/// The banner that announces the server.
pub open spec fn banner_text(
    env_files: Seq<Seq<char>>,
    port: u16,
    ip: Option<Seq<char>>,
) -> Seq<char> {
    "\n  \x1b[1m\x1b[36mß Bini.js\x1b[0m  (production)\n"@ + environments_line(env_files)
        + local_line(port) + network_line(ip, port)
        + "  \x1b[32m➜\x1b[0m  \x1b[2mpress \x1b[0mh\x1b[2m + \x1b[0menter\x1b[2m to show help\x1b[0m\n\n"@
}

fn environments(env_files: &Vec<String>) -> (s: String)
    ensures
        s@ == environments_line(texts(env_files@)),
{
    if env_files.len() == 0 {
        return String::new();
    }
    let mut s = "  \x1b[32m➜\x1b[0m  Environments: ".to_owned();
    s.append(join(env_files, ", ").as_str());
    s.append("\n");
    s
}

fn network(ip: &Option<String>, port: u16) -> (s: String)
    ensures
        s@ == network_line(
            match *ip {
                Some(ip) => Some(ip@),
                None => None,
            },
            port,
        ),
{
    match ip {
        Some(ip) => {
            let mut s = "  \x1b[32m➜\x1b[0m  Network: \x1b[36mhttp://".to_owned();
            s.append(ip.as_str());
            s.append(":");
            s.append(decimal_text(port as u64).as_str());
            s.append("/\x1b[0m\n");
            s
        },
        None => String::new(),
    }
}

/// Writes the banner that announces the server.
pub fn print_banner(env_files: &Vec<String>, port: u16, ip: &Option<String>) -> (s: String)
    ensures
        s@ == banner_text(
            texts(env_files@),
            port,
            match *ip {
                Some(ip) => Some(ip@),
                None => None,
            },
        ),
{
    let mut local = "  \x1b[32m➜\x1b[0m  Local:   \x1b[36m".to_owned();
    local.append(local_url(port).as_str());
    local.append("\x1b[0m\n");
    let mut s = "\n  \x1b[1m\x1b[36mß Bini.js\x1b[0m  (production)\n".to_owned();
    s.append(environments(env_files).as_str());
    s.append(local.as_str());
    s.append(network(ip, port).as_str());
    s.append(
        "  \x1b[32m➜\x1b[0m  \x1b[2mpress \x1b[0mh\x1b[2m + \x1b[0menter\x1b[2m to show help\x1b[0m\n\n",
    );
    s
}

// ---------------------------------------------------------------------------
// Keys
// ---------------------------------------------------------------------------

/// What can happen at the keyboard.
pub enum KeyEvent {
    /// A line was entered.
    Line(String),
    /// The input ended, or could not be read.
    Closed,
    /// The program was asked to stop.
    Interrupted,
}

/// What the server does about it.
pub enum KeyAction {
    /// Prints a text and reads on.
    Show(String),
    /// Opens an address in the browser and reads on.
    Open(String),
    /// Reads on.
    Ignore,
    /// Reads no more keys. The server keeps running until it is shut down.
    StopReading,
    /// Ends the program with success.
    Exit,
}

/// The list of keys.
pub open spec fn help_text() -> Seq<char> {
    "\n  Shortcuts\n  \x1b[2mpress \x1b[0mo\x1b[2m + \x1b[0menter\x1b[2m to open in browser\x1b[0m\n  \x1b[2mpress \x1b[0mq\x1b[2m + \x1b[0menter\x1b[2m to quit\x1b[0m\n\n"@
}

/// Decides what a key event leads to. White space round a key does not matter. An interrupt ends
/// only the reading: requests in flight are left to the shutdown of the server.
pub fn keyboard_loop(port: u16, event: &KeyEvent) -> (action: KeyAction)
    ensures
        match *event {
            KeyEvent::Line(line) => {
                let key = trim(line@, Cut::WhiteSpace);
                match action {
                    KeyAction::Show(text) => key == "h"@ && text@ == help_text(),
                    KeyAction::Open(url) => key == "o"@ && url@ == local_address(port),
                    KeyAction::Exit => key == "q"@,
                    KeyAction::Ignore => key != "h"@ && key != "o"@ && key != "q"@,
                    KeyAction::StopReading => false,
                }
            },
            KeyEvent::Closed => action is StopReading,
            KeyEvent::Interrupted => action is StopReading,
        },
{
    match event {
        KeyEvent::Line(line) => {
            let key = trim_matches(line.as_str(), Cut::WhiteSpace);
            if same_text(key, "h") {
                KeyAction::Show(
                    "\n  Shortcuts\n  \x1b[2mpress \x1b[0mo\x1b[2m + \x1b[0menter\x1b[2m to open in browser\x1b[0m\n  \x1b[2mpress \x1b[0mq\x1b[2m + \x1b[0menter\x1b[2m to quit\x1b[0m\n\n".to_owned(),
                )
            } else if same_text(key, "o") {
                KeyAction::Open(local_url(port))
            } else if same_text(key, "q") {
                KeyAction::Exit
            } else {
                KeyAction::Ignore
            }
        },
        KeyEvent::Closed => KeyAction::StopReading,
        KeyEvent::Interrupted => KeyAction::StopReading,
    }
}

// ---------------------------------------------------------------------------
// Laws
// ---------------------------------------------------------------------------

/// Two lists are joined with the separator between them; one text is itself, and no text is nothing.
pub proof fn joined_lists_add_up(a: Seq<Seq<char>>, b: Seq<Seq<char>>, separator: Seq<char>)
    ensures
        a.len() == 0 ==> joined(a, separator) == Seq::<char>::empty(),
        a.len() == 1 ==> joined(a, separator) == a[0],
        a.len() > 0 && b.len() > 0 ==> joined(a + b, separator) == joined(a, separator) + separator
            + joined(b, separator),
    decreases b.len(),
{
    if a.len() > 0 && b.len() > 0 {
        assert((a + b).drop_last() == a + b.drop_last());
        assert((a + b).last() == b.last());
        if b.len() == 1 {
            assert(a + b.drop_last() == a);
        } else {
            joined_lists_add_up(a, b.drop_last(), separator);
            assert(joined(a + b, separator) =~= joined(a, separator) + separator + joined(
                b,
                separator,
            ));
        }
    }
}

/// The address on this machine is that of `localhost` with the port; the browser is sent to its
/// root.
pub proof fn local_address_names_the_port(port: u16)
    ensures
        local_address(port) == "http://localhost:"@ + decimal(port as nat) + "/"@,
{
}

/// The banner gives the address on this machine; before it, the environment files, where there are
/// any; and after it, the address on the network, where there is one.
pub proof fn banner_gives_the_addresses(
    env_files: Seq<Seq<char>>,
    port: u16,
    ip: Option<Seq<char>>,
)
    ensures
        banner_text(env_files, port, ip) == "\n  \x1b[1m\x1b[36mß Bini.js\x1b[0m  (production)\n"@
            + (if env_files.len() > 0 {
            "  \x1b[32m➜\x1b[0m  Environments: "@ + joined(env_files, ", "@) + "\n"@
        } else {
            Seq::empty()
        }) + ("  \x1b[32m➜\x1b[0m  Local:   \x1b[36m"@ + ("http://localhost:"@ + decimal(
            port as nat,
        ) + "/"@) + "\x1b[0m\n"@) + (if ip is Some {
            "  \x1b[32m➜\x1b[0m  Network: \x1b[36mhttp://"@ + ip->0 + ":"@ + decimal(port as nat)
                + "/\x1b[0m\n"@
        } else {
            Seq::empty()
        })
            + "  \x1b[32m➜\x1b[0m  \x1b[2mpress \x1b[0mh\x1b[2m + \x1b[0menter\x1b[2m to show help\x1b[0m\n\n"@,
{
}

} // verus!
