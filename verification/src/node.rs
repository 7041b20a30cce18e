//! The Node.js process that runs the API handlers: which version will do, what it is told, and
//! whether it came up.

use vstd::prelude::*;
use vstd::utf8::{decode_utf8, valid_utf8};

use crate::env_file::entry_texts;
use crate::text::{
    decimal, decimal_reads_back, decimal_text, first_at, first_at_end_of, is_digit, is_white_space,
    lemma_decimal_digits, lemma_first_at, number, parse_number, split_once, trim,
    trim_leaves_the_middle, trim_matches, trim_start, trim_start_leaves_the_rest,
    trim_start_matches, Cut,
};

verus! {

// ---------------------------------------------------------------------------
// Version
// ---------------------------------------------------------------------------

/// The first major version that will do.
pub const MIN_NODE_MAJOR: u32 = 20;

/// A version number as `node --version` prints it, without the letter in front.
pub open spec fn version_number(printed: Seq<char>) -> Seq<char> {
    trim_start(trim(printed, Cut::WhiteSpace), Cut::Only('v'))
}

/// What stands before the first dot of a version number.
pub open spec fn major_part(version: Seq<char>) -> Seq<char> {
    version.take(first_at(version, '.'))
}

/// The major version; zero where none can be made out.
pub open spec fn major_version(printed: Seq<char>) -> nat {
    match number(major_part(version_number(printed)), u32::MAX as nat) {
        Some(n) => n,
        None => 0,
    }
}

/// The complaint that the version will not do.
pub open spec fn old_node_message(printed: Seq<char>) -> Seq<char> {
    "\n  \x1b[31m✗\x1b[0m  Node.js v20 or later is required (found v"@ + version_number(printed)
        + ").\n      Upgrade at https://nodejs.org\n\n"@
}

/// The complaint that there is no Node.js.
pub open spec fn no_node_message() -> Seq<char> {
    "\n  \x1b[31m✗\x1b[0m  Node.js is not installed.\n      Install it from https://nodejs.org\n\n"@
}

/// Judges what `node --version` printed.
pub fn check_version(printed: &str) -> (r: Result<(), String>)
    ensures
        match r {
            Ok(_) => major_version(printed@) >= MIN_NODE_MAJOR,
            Err(message) => major_version(printed@) < MIN_NODE_MAJOR && message@
                == old_node_message(printed@),
        },
{
    let version = trim_start_matches(trim_matches(printed, Cut::WhiteSpace), Cut::Only('v'));
    proof {
        lemma_first_at(version@, '.');
        assert(first_at(version@, '.') == version@.len() ==> major_part(version@) == version@);
    }
    let major = match split_once(version, '.') {
        Some((before, _)) => before,
        None => version,
    };
    let n: u64 = match parse_number(major, u32::MAX as u64) {
        Some(n) => n,
        None => 0,
    };
    if n < MIN_NODE_MAJOR as u64 {
        let mut message =
            "\n  \x1b[31m✗\x1b[0m  Node.js v20 or later is required (found v".to_owned();
        message.append(version);
        message.append(").\n      Upgrade at https://nodejs.org\n\n");
        Err(message)
    } else {
        Ok(())
    }
}

/// The text of some bytes, where what is not UTF-8 is replaced.
pub uninterp spec fn lossy_text(bytes: Seq<u8>) -> Seq<char>;

/// `String::from_utf8_lossy` of std decodes bytes. Bytes that are UTF-8 give their own text; which
/// marks stand for the others is left unsaid.
#[verifier::external_body]
fn decode_lossy(bytes: &[u8]) -> (text: String)
    ensures
        text@ == lossy_text(bytes@),
        valid_utf8(bytes@) ==> text@ == decode_utf8(bytes@),
{
    String::from_utf8_lossy(bytes).into_owned()
}

/// The bytes of an output, if there is one.
pub open spec fn output_bytes(output: Option<&[u8]>) -> Option<Seq<u8>> {
    match output {
        Some(bytes) => Some(bytes@),
        None => None,
    }
}

/// What is wrong with the installed Node.js, if anything is.
pub open spec fn node_problem(output: Option<Seq<u8>>) -> Option<Seq<char>> {
    match output {
        None => Some(no_node_message()),
        Some(bytes) => if major_version(lossy_text(bytes)) >= MIN_NODE_MAJOR {
            None
        } else {
            Some(old_node_message(lossy_text(bytes)))
        },
    }
}

/// Judges the output of `node --version`, or that the command could not be run.
pub fn check_node(output: Option<&[u8]>) -> (r: Result<(), String>)
    ensures
        match r {
            Ok(_) => node_problem(output_bytes(output)) is None,
            Err(message) => node_problem(output_bytes(output)) == Some(message@),
        },
        match output {
            Some(bytes) => valid_utf8(bytes@) ==> lossy_text(bytes@) == decode_utf8(bytes@),
            None => r is Err,
        },
{
    match output {
        None => Err(
            "\n  \x1b[31m✗\x1b[0m  Node.js is not installed.\n      Install it from https://nodejs.org\n\n".to_owned(),
        ),
        Some(bytes) => {
            let printed = decode_lossy(bytes);
            check_version(printed.as_str())
        },
    }
}

// ---------------------------------------------------------------------------
// Environment
// ---------------------------------------------------------------------------

/// The variables that the process is started with, beside those that it inherits.
pub open spec fn node_variables(
    port: u16,
    handler_timeout_secs: u64,
    body_size_limit: usize,
    api_dir: Seq<char>,
) -> Seq<(Seq<char>, Seq<char>)> {
    seq![
        ("BINI_API_DIR"@, api_dir),
        ("BINI_API_PORT"@, decimal(port as nat)),
        ("HANDLER_TIMEOUT"@, decimal((handler_timeout_secs * 1000) as nat)),
        ("BINI_BODY_SIZE_LIMIT"@, decimal(body_size_limit as nat)),
        ("NODE_ENV"@, "production"@),
    ]
}

/// Makes the variables that the process is started with. The timeout is handed on in
/// milliseconds.
pub fn node_env(
    port: u16,
    handler_timeout_secs: u64,
    body_size_limit: usize,
    api_dir: &str,
) -> (vars: Vec<(String, String)>)
    requires
        handler_timeout_secs * 1000 <= u64::MAX,
    ensures
        entry_texts(vars@) == node_variables(
            port,
            handler_timeout_secs,
            body_size_limit,
            api_dir@,
        ),
{
    let mut vars: Vec<(String, String)> = Vec::new();
    vars.push(("BINI_API_DIR".to_owned(), api_dir.to_owned()));
    vars.push(("BINI_API_PORT".to_owned(), decimal_text(port as u64)));
    vars.push(("HANDLER_TIMEOUT".to_owned(), decimal_text(handler_timeout_secs * 1000)));
    vars.push(("BINI_BODY_SIZE_LIMIT".to_owned(), decimal_text(body_size_limit as u64)));
    vars.push(("NODE_ENV".to_owned(), "production".to_owned()));
    assert(entry_texts(vars@) =~= node_variables(
        port,
        handler_timeout_secs,
        body_size_limit,
        api_dir@,
    ));
    vars
}

// ---------------------------------------------------------------------------
// Startup report
// ---------------------------------------------------------------------------

/// What the process said when it was started.
pub enum NodeEvent {
    /// Its output cannot be read.
    NoStdout,
    /// It said nothing in time.
    TimedOut,
    /// It printed a line, or ended before it did.
    Line(String),
}

/// The unsigned integer that a field of a JSON object holds, if it holds one; or the complaint
/// that a text is not JSON.
pub uninterp spec fn json_u64(text: Seq<char>, field: Seq<char>) -> Result<Option<u64>, Seq<char>>;

/// A text with its special characters escaped, in double quotes.
pub uninterp spec fn debug_text(s: Seq<char>) -> Seq<char>;

/// Whether a field name is made of lower case ASCII letters.
pub open spec fn is_plain_field(field: Seq<char>) -> bool {
    forall|i: int| 0 <= i < field.len() ==> ('a' <= #[trigger] field[i] && field[i] <= 'z')
}

/// The JSON object with one field that holds an unsigned integer, written without white space.
pub open spec fn json_report(field: Seq<char>, n: u64) -> Seq<char> {
    "{\""@ + field + "\":"@ + decimal(n as nat) + "}"@
}

/// What a reading of a JSON field gave, with its complaint as text.
pub open spec fn report_model(report: Result<Option<u64>, String>) -> Result<
    Option<u64>,
    Seq<char>,
> {
    match report {
        Ok(n) => Ok(n),
        Err(e) => Err(e@),
    }
}

/// `serde_json::from_str` reads a text as a JSON value, and `Value::as_u64` reads the value of one
/// of its fields as an unsigned integer. Which texts are JSON, and what the complaint says of one
/// that is not, is left to the name. An object with one plainly named integer is read back.
#[verifier::external_body]
fn read_json_u64(text: &str, field: &str) -> (r: Result<Option<u64>, String>)
    ensures
        report_model(r) == json_u64(text@, field@),
        forall|n: u64|
            is_plain_field(field@) && text@ == #[trigger] json_report(field@, n) ==> r is Ok
                && r->Ok_0 == Some(n),
{
    match serde_json::from_str::<serde_json::Value>(text) {
        Ok(value) => Ok(value[field].as_u64()),
        Err(e) => Err(e.to_string()),
    }
}

/// The `Debug` form of a text, which std writes with `format!`.
#[verifier::external_body]
fn debug_quoted(s: &str) -> (r: String)
    ensures
        r@ == debug_text(s@),
{
    format!("{:?}", s)
}

/// What is wrong with a startup report, if anything is. A reported port counts by its lower
/// sixteen bits.
pub open spec fn report_error(
    port: u16,
    line: Seq<char>,
    report: Result<Option<u64>, Seq<char>>,
) -> Option<Seq<char>> {
    match report {
        Err(e) => Some(
            "Unexpected Node startup message: "@ + e + " (got: "@ + debug_text(line) + ")"@,
        ),
        Ok(None) => Some("Missing 'port' field in Node startup JSON"@),
        Ok(Some(n)) => if n % 65536 == port {
            None
        } else {
            Some(
                "Node started on port "@ + decimal((n % 65536) as nat) + " but expected "@
                    + decimal(port as nat),
            )
        },
    }
}

/// What is wrong with how the process came up, if anything is.
pub open spec fn start_error(port: u16, event: NodeEvent) -> Option<Seq<char>> {
    match event {
        NodeEvent::NoStdout => Some("Node produced no stdout"@),
        NodeEvent::TimedOut => Some("Node API server did not start within 15s"@),
        NodeEvent::Line(line) => report_error(
            port,
            line@,
            json_u64(trim(line@, Cut::WhiteSpace), "port"@),
        ),
    }
}

/// Judges what was read out of a startup report.
pub fn judge_report(port: u16, line: &str, report: &Result<Option<u64>, String>) -> (r: Result<
    (),
    String,
>)
    ensures
        match r {
            Ok(_) => report_error(port, line@, report_model(*report)) is None,
            Err(e) => report_error(port, line@, report_model(*report)) == Some(e@),
        },
{
    match report {
        Err(e) => {
            let mut message = "Unexpected Node startup message: ".to_owned();
            message.append(e.as_str());
            message.append(" (got: ");
            message.append(debug_quoted(line).as_str());
            message.append(")");
            Err(message)
        },
        Ok(None) => Err("Missing 'port' field in Node startup JSON".to_owned()),
        Ok(Some(n)) => {
            let reported: u64 = *n % 65536;
            if reported == port as u64 {
                Ok(())
            } else {
                let mut message = "Node started on port ".to_owned();
                message.append(decimal_text(reported).as_str());
                message.append(" but expected ");
                message.append(decimal_text(port as u64).as_str());
                Err(message)
            }
        },
    }
}

/// White space at the end of a text is trimmed away, whatever else the trim leaves alone.
proof fn lemma_trim_line_end(s: Seq<char>)
    requires
        s.len() > 0,
        !is_white_space(s[0]),
        !is_white_space(s.last()),
    ensures
        trim(s.push('\n'), Cut::WhiteSpace) == s,
{
    let line = s.push('\n');
    assert(line[0] == s[0]);
    assert(line.drop_last() == s);
    assert(trim_start(line, Cut::WhiteSpace) == line);
    reveal_with_fuel(crate::text::trim_end, 2);
}

/// Judges how the process came up. A process that prints the JSON object with a port, and a line
/// feed, is judged by that port.
pub fn start_node_api(port: u16, event: &NodeEvent) -> (r: Result<(), String>)
    ensures
        match r {
            Ok(_) => start_error(port, *event) is None,
            Err(e) => start_error(port, *event) == Some(e@),
        },
        match *event {
            NodeEvent::Line(line) => forall|n: u64|
                line@ == (#[trigger] json_report("port"@, n)).push('\n') ==> json_u64(
                    trim(line@, Cut::WhiteSpace),
                    "port"@,
                ) == Ok::<Option<u64>, Seq<char>>(Some(n)) && (r is Ok <==> n % 65536 == port),
            _ => true,
        },
{
    match event {
        NodeEvent::NoStdout => Err("Node produced no stdout".to_owned()),
        NodeEvent::TimedOut => Err("Node API server did not start within 15s".to_owned()),
        NodeEvent::Line(line) => {
            let text = trim_matches(line.as_str(), Cut::WhiteSpace);
            let report = read_json_u64(text, "port");
            proof {
                reveal_strlit("port");
                reveal_strlit("{\"");
                reveal_strlit("}");
                assert(is_plain_field("port"@)) by {
                    assert("port"@ =~= seq!['p', 'o', 'r', 't']);
                }
                assert forall|n: u64|
                    line@ == (#[trigger] json_report("port"@, n)).push('\n') implies json_u64(
                    text@,
                    "port"@,
                ) == Ok::<Option<u64>, Seq<char>>(Some(n)) by {
                    let expected = json_report("port"@, n);
                    assert(expected[0] == '{');
                    assert(expected.last() == '}');
                    lemma_trim_line_end(expected);
                }
            }
            judge_report(port, line.as_str(), &report)
        },
    }
}

// ---------------------------------------------------------------------------
// Laws
// ---------------------------------------------------------------------------

/// The version that `node --version` prints, a `v`, the major version, a dot and the rest, is
/// recognised, so a version will do if and only if its major version is high enough.
pub proof fn printed_version_is_recognised(major: nat, rest: Seq<char>)
    requires
        major <= u32::MAX,
        rest.len() > 0,
        !is_white_space(rest.last()),
    ensures
        major_version((seq!['v'] + decimal(major) + seq!['.'] + rest).push('\n')) == major,
{
    let version = decimal(major) + seq!['.'] + rest;
    let printed = seq!['v'] + decimal(major) + seq!['.'] + rest;
    lemma_decimal_digits(major);
    assert(printed[0] == 'v');
    assert(printed.last() == rest.last());
    lemma_trim_line_end(printed);
    assert(printed.drop_first() == version);
    assert(version[0] == decimal(major)[0]);
    assert(is_digit(decimal(major)[0]));
    reveal_with_fuel(crate::text::trim_start, 2);
    assert(version_number(printed.push('\n')) == version);
    assert(!decimal(major).contains('.')) by {
        if decimal(major).contains('.') {
            let i = choose|i: int| 0 <= i < decimal(major).len() && decimal(major)[i] == '.';
            assert(is_digit(decimal(major)[i]));
        }
    }
    first_at_end_of(decimal(major), '.', rest);
    assert(major_part(version) == decimal(major));
    decimal_reads_back(major, u32::MAX as nat);
}

/// The process reads back the port, the timeout in milliseconds and the size limit that it was
/// given.
pub proof fn node_reads_its_limits_back(
    port: u16,
    handler_timeout_secs: u64,
    body_size_limit: usize,
    api_dir: Seq<char>,
)
    requires
        handler_timeout_secs * 1000 <= u64::MAX,
    ensures
        number(
            node_variables(port, handler_timeout_secs, body_size_limit, api_dir)[1].1,
            u64::MAX as nat,
        ) == Some(port as nat),
        number(
            node_variables(port, handler_timeout_secs, body_size_limit, api_dir)[2].1,
            u64::MAX as nat,
        ) == Some((handler_timeout_secs * 1000) as nat),
        number(
            node_variables(port, handler_timeout_secs, body_size_limit, api_dir)[3].1,
            u64::MAX as nat,
        ) == Some(body_size_limit as nat),
{
    decimal_reads_back(port as nat, u64::MAX as nat);
    decimal_reads_back((handler_timeout_secs * 1000) as nat, u64::MAX as nat);
    decimal_reads_back(body_size_limit as nat, u64::MAX as nat);
}

/// The major version is the number before the first dot, or the whole where there is no dot. White
/// space round the output and letters `v` before the version make no difference. What is no number
/// there counts as version zero.
pub proof fn major_version_stands_before_the_dot(
    lead: Seq<char>,
    letters: Seq<char>,
    head: Seq<char>,
    tail: Seq<char>,
    end: Seq<char>,
)
    requires
        forall|i: int| 0 <= i < lead.len() ==> is_white_space(#[trigger] lead[i]),
        forall|i: int| 0 <= i < letters.len() ==> #[trigger] letters[i] == 'v',
        forall|i: int| 0 <= i < end.len() ==> is_white_space(#[trigger] end[i]),
        !head.contains('.'),
        tail.len() > 0 ==> tail[0] == '.' && !is_white_space(tail.last()),
        head.len() > 0 ==> head[0] != 'v' && !is_white_space(head[0]) && !is_white_space(
            head.last(),
        ),
    ensures
        version_number(lead + letters + head + tail + end) == head + tail,
        major_version(lead + letters + head + tail + end) == match number(head, 4294967295) {
            Some(n) => n,
            None => 0,
        },
{
    let printed = lead + letters + head + tail + end;
    let version = head + tail;
    let middle = letters + version;
    assert(printed =~= lead + middle + end);
    if middle.len() > 0 {
        if letters.len() > 0 {
            assert(middle[0] == letters[0]);
        } else if head.len() > 0 {
            assert(middle[0] == head[0]);
        } else {
            assert(middle[0] == tail[0]);
        }
        if tail.len() > 0 {
            assert(middle.last() == tail.last());
        } else if head.len() > 0 {
            assert(middle.last() == head.last());
        } else {
            assert(middle.last() == letters.last());
        }
    }
    trim_leaves_the_middle(lead, middle, end, Cut::WhiteSpace);
    if version.len() > 0 {
        if head.len() > 0 {
            assert(version[0] == head[0]);
        } else {
            assert(version[0] == tail[0]);
        }
    }
    trim_start_leaves_the_rest(letters, version, Cut::Only('v'));
    assert(version_number(printed) == version);
    if tail.len() > 0 {
        let rest = tail.drop_first();
        assert(version =~= head + seq!['.'] + rest);
        first_at_end_of(head, '.', rest);
        assert(version.take(head.len() as int) =~= head);
    } else {
        assert(version =~= head);
        lemma_first_at(head, '.');
        if first_at(head, '.') < head.len() {
            assert(head.contains('.'));
        }
        assert(head.take(head.len() as int) =~= head);
    }
}

/// Version 20 and later will do, and nothing else: not an earlier one, and not a command that could
/// not be run. The complaint says which version was found.
pub proof fn version_twenty_is_needed(bytes: Seq<u8>)
    ensures
        MIN_NODE_MAJOR == 20,
        node_problem(Some(bytes)) is None <==> major_version(lossy_text(bytes)) >= 20,
        major_version(lossy_text(bytes)) < 20 ==> node_problem(Some(bytes)) == Some(
            "\n  \x1b[31m✗\x1b[0m  Node.js v20 or later is required (found v"@ + version_number(
                lossy_text(bytes),
            ) + ").\n      Upgrade at https://nodejs.org\n\n"@,
        ),
        node_problem(None) == Some(
            "\n  \x1b[31m✗\x1b[0m  Node.js is not installed.\n      Install it from https://nodejs.org\n\n"@,
        ),
{
}

/// The process gets each of its variables once: the configured directory, the port, the time limit
/// in milliseconds, the size limit and the production mode. It gets no other one.
pub proof fn process_gets_each_variable_once(
    port: u16,
    handler_timeout_secs: u64,
    body_size_limit: usize,
    api_dir: Seq<char>,
    name: Seq<char>,
    value: Seq<char>,
)
    ensures
        node_variables(port, handler_timeout_secs, body_size_limit, api_dir).contains(
            (name, value),
        ) <==> {
            ||| name == "BINI_API_DIR"@ && value == api_dir
            ||| name == "BINI_API_PORT"@ && value == decimal(port as nat)
            ||| name == "HANDLER_TIMEOUT"@ && value == decimal(
                (handler_timeout_secs * 1000) as nat,
            )
            ||| name == "BINI_BODY_SIZE_LIMIT"@ && value == decimal(body_size_limit as nat)
            ||| name == "NODE_ENV"@ && value == "production"@
        },
        forall|i: int, j: int|
            0 <= i < j < node_variables(
                port,
                handler_timeout_secs,
                body_size_limit,
                api_dir,
            ).len() ==> (#[trigger] node_variables(
                port,
                handler_timeout_secs,
                body_size_limit,
                api_dir,
            )[i]).0 != (#[trigger] node_variables(
                port,
                handler_timeout_secs,
                body_size_limit,
                api_dir,
            )[j]).0,
{
    let vars = node_variables(port, handler_timeout_secs, body_size_limit, api_dir);
    assert(vars[0] == ("BINI_API_DIR"@, api_dir));
    assert(vars[1] == ("BINI_API_PORT"@, decimal(port as nat)));
    assert(vars[2] == ("HANDLER_TIMEOUT"@, decimal((handler_timeout_secs * 1000) as nat)));
    assert(vars[3] == ("BINI_BODY_SIZE_LIMIT"@, decimal(body_size_limit as nat)));
    assert(vars[4] == ("NODE_ENV"@, "production"@));
    reveal_strlit("BINI_API_DIR");
    reveal_strlit("BINI_API_PORT");
    reveal_strlit("HANDLER_TIMEOUT");
    reveal_strlit("BINI_BODY_SIZE_LIMIT");
    reveal_strlit("NODE_ENV");
    assert("BINI_API_DIR"@.len() == 12);
    assert("BINI_API_PORT"@.len() == 13);
    assert("HANDLER_TIMEOUT"@.len() == 15);
    assert("BINI_BODY_SIZE_LIMIT"@.len() == 20);
    assert("NODE_ENV"@.len() == 8);
}

/// A reading of a JSON field stands for the number or the complaint that it gave, and an output for
/// its bytes.
pub proof fn readings_stand_for_what_they_gave(
    n: Option<u64>,
    complaint: String,
    output: Option<&[u8]>,
)
    ensures
        report_model(Ok(n)) == Ok::<Option<u64>, Seq<char>>(n),
        report_model(Err(complaint)) == Err::<Option<u64>, Seq<char>>(complaint@),
        output_bytes(output) is Some <==> output is Some,
        output is Some ==> output_bytes(output) == Some(output->0@),
{
}

/// The report of a port is an opening brace, the quoted field, a colon, the number and a closing
/// brace.
pub proof fn report_is_a_json_object(field: Seq<char>, n: u64)
    ensures
        json_report(field, n) == seq!['{', '"'] + field + seq!['"', ':'] + decimal(n as nat) + seq![
            '}',
        ],
{
    reveal_strlit("{\"");
    reveal_strlit("\":");
    reveal_strlit("}");
    assert("{\""@ =~= seq!['{', '"']);
    assert("\":"@ =~= seq!['"', ':']);
    assert("}"@ =~= seq!['}']);
}

/// A report is accepted if and only if its number agrees with the port in its lower sixteen bits.
/// Another number, a report without a number and a text that is not JSON are complained of, each in
/// its own words.
pub proof fn only_the_given_port_is_accepted(
    port: u16,
    line: Seq<char>,
    n: u64,
    complaint: Seq<char>,
)
    ensures
        report_error(port, line, Ok(Some(n))) is None <==> exists|k: int|
            n == #[trigger] (k * 65536) + port,
        report_error(port, line, Ok(Some(n))) is Some ==> report_error(port, line, Ok(Some(n)))
            == Some(
            "Node started on port "@ + decimal(n as nat % 65536) + " but expected "@ + decimal(
                port as nat,
            ),
        ),
        report_error(port, line, Ok(None)) == Some("Missing 'port' field in Node startup JSON"@),
        report_error(port, line, Err(complaint)) == Some(
            "Unexpected Node startup message: "@ + complaint + " (got: "@ + debug_text(line) + ")"@,
        ),
{
    if n % 65536 == port {
        let k = n as int / 65536;
        assert(n == k * 65536 + port);
    }
    if exists|k: int| n == #[trigger] (k * 65536) + port {
        let k = choose|k: int| n == #[trigger] (k * 65536) + port;
        assert(n as int % 65536 == port);
    }
}

/// A process that says nothing is refused, and one that prints a line is judged by what the line
/// reports, whatever white space stands round it.
pub proof fn process_is_judged_by_its_report(
    port: u16,
    line: String,
    lead: Seq<char>,
    text: Seq<char>,
    end: Seq<char>,
)
    requires
        line@ == lead + text + end,
        forall|i: int| 0 <= i < lead.len() ==> is_white_space(#[trigger] lead[i]),
        forall|i: int| 0 <= i < end.len() ==> is_white_space(#[trigger] end[i]),
        text.len() > 0 ==> !is_white_space(text[0]) && !is_white_space(text.last()),
    ensures
        start_error(port, NodeEvent::NoStdout) == Some("Node produced no stdout"@),
        start_error(port, NodeEvent::TimedOut) == Some("Node API server did not start within 15s"@),
        start_error(port, NodeEvent::Line(line)) == report_error(
            port,
            line@,
            json_u64(text, "port"@),
        ),
        start_error(port, NodeEvent::Line(line)) is None <==> match json_u64(text, "port"@) {
            Ok(Some(n)) => n % 65536 == port,
            _ => false,
        },
{
    trim_leaves_the_middle(lead, text, end, Cut::WhiteSpace);
}

} // verus!
