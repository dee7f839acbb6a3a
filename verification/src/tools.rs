//! The command line tools that reach a device: what they are called with, and what their output
//! says.
use crate::text::chars_of;
use crate::text::find;
use crate::text::find_in;
use crate::text::has_utf8_len;
use crate::text::hex_word;
use crate::text::hex_word_of;
use crate::text::joined;
use crate::text::lines;
use crate::text::lossy_text;
use crate::text::lossy_text_of;
use crate::text::pieces;
use crate::text::remove_colons;
use crate::text::split_lines;
use crate::text::split_white_space;
use crate::text::string_of;
use crate::text::tokens;
use crate::text::trim;
use crate::text::trimmed;
use crate::text::without_colons;
use crate::words::to_array;
use crate::words::word_to_bytes;
use crate::words::words_bytes;
use vstd::prelude::*;
use vstd::utf8::decode_utf8;
use vstd::utf8::encode_utf8;
use vstd::utf8::valid_utf8;

verus! {

/// What a tool has put out.
#[derive(Debug)]
pub struct ToolOutput {
    /// The tool ended with success.
    pub success: bool,
    pub stdout: Vec<u8>,
    pub stderr: Vec<u8>,
}

/// What a tool is run for.
#[derive(Debug, Clone, Copy, PartialEq, Eq, Structural)]
pub enum Task {
    /// `esptool` flashes the image.
    Flash,
    /// `espefuse` burns the HMAC key.
    Burn,
    /// `espefuse` dumps the eFuses.
    Dump,
    /// `esptool` reports the address of the device.
    ReadMac,
}

impl Task {
    /// What the user is told of a failure before what the tool says.
    pub open spec fn failure_label(self) -> Seq<char> {
        match self {
            Task::Flash => "esptool failed: "@,
            Task::Burn => "espefuse failed: "@,
            Task::Dump => "espefuse dump failed: "@,
            Task::ReadMac => "esptool read-mac failed: "@,
        }
    }
}

/// Why a tool was of no use.
#[derive(Debug)]
pub enum ToolError {
    /// The tool failed, and says why.
    Failed { task: Task, stderr: String },
    /// The dump does not hold the HMAC key.
    KeyNotFound,
    /// The report does not hold the address.
    MacNotFound,
}

impl ToolError {
    /// Returns what the user is told.
    pub fn message(&self) -> (text: String)
        ensures
            match self {
                ToolError::Failed { task, stderr } => text@ == task.failure_label() + stderr@,
                ToolError::KeyNotFound => text@ == "Could not find HMAC key in eFuse dump"@,
                ToolError::MacNotFound => text@ == "Could not find MAC address"@,
            },
    {
        match self {
            ToolError::Failed { task, stderr } => {
                let label = match task {
                    Task::Flash => "esptool failed: ",
                    Task::Burn => "espefuse failed: ",
                    Task::Dump => "espefuse dump failed: ",
                    Task::ReadMac => "esptool read-mac failed: ",
                };
                joined(label, stderr.as_str())
            },
            ToolError::KeyNotFound => "Could not find HMAC key in eFuse dump".to_owned(),
            ToolError::MacNotFound => "Could not find MAC address".to_owned(),
        }
    }
}

/// `e` says that the tool failed at its task, and what it says about that.
pub open spec fn is_failure(e: ToolError, task: Task, output: ToolOutput) -> bool {
    &&& !output.success
    &&& e matches ToolError::Failed { task: t, stderr } && t == task && stderr@
        == lossy_text_of(output.stderr@)
}

/// What `f` finds in the first line in which it finds anything.
pub open spec fn first_found<T>(
    parts: Seq<Seq<char>>,
    f: spec_fn(Seq<char>) -> Option<T>,
) -> Option<T>
    decreases parts.len(),
{
    if parts.len() == 0 {
        None
    } else {
        match f(parts[0]) {
            Some(found) => Some(found),
            None => first_found(parts.skip(1), f),
        }
    }
}

/// Reads tokens as hexadecimal words.
pub open spec fn as_hex_word() -> spec_fn(Seq<char>) -> Option<u32> {
    |token: Seq<char>| hex_word_of(token)
}

/// The words of a text: its tokens that are hexadecimal words.
pub open spec fn hex_words(text: Seq<char>) -> Seq<u32> {
    tokens(trimmed(text)).filter_map(as_hex_word())
}

/// The key in a line that dumps `BLOCK_KEY2`: the first eight words after `dump:`, each with
/// its least significant byte first.
pub open spec fn key_in_line(line: Seq<char>) -> Option<Seq<u8>> {
    match (find_in(line, "BLOCK_KEY2"@), find_in(line, "dump:"@)) {
        (Some(_), Some(at)) => {
            let words = hex_words(line.skip(at + 5));
            if words.len() >= 8 {
                Some(words_bytes(words.take(8)))
            } else {
                None
            }
        },
        _ => None,
    }
}

/// Finds the key in a line.
pub open spec fn dumped_key() -> spec_fn(Seq<char>) -> Option<Seq<u8>> {
    |line: Seq<char>| key_in_line(line)
}

/// The address in a line that has one after `MAC:`: without white space at its ends and
/// without colons, it takes twelve bytes.
pub open spec fn mac_in_line(line: Seq<char>) -> Option<Seq<char>> {
    match find_in(line, "MAC:"@) {
        Some(at) => {
            let mac = without_colons(trimmed(line.skip(at + 4)));
            if encode_utf8(mac).len() == 12 {
                Some(mac)
            } else {
                None
            }
        },
        None => None,
    }
}

/// Finds the address in a line.
pub open spec fn reported_mac() -> spec_fn(Seq<char>) -> Option<Seq<char>> {
    |line: Seq<char>| mac_in_line(line)
}

/// Collects the bytes of the hexadecimal words of a text.
fn hex_word_bytes(text: &[char]) -> (bytes: Vec<u8>)
    ensures
        bytes@ == words_bytes(hex_words(text@)),
{
    let parts = split_white_space(trim(text));
    let mut bytes: Vec<u8> = Vec::new();
    let ghost found = pieces(parts@);
    proof {
        assert(found.take(0) =~= Seq::<Seq<char>>::empty());
        assert(bytes@ =~= words_bytes(found.take(0).filter_map(as_hex_word())));
    }
    for i in 0..parts.len()
        invariant
            found == pieces(parts@),
            bytes@ == words_bytes(found.take(i as int).filter_map(as_hex_word())),
    {
        let ghost before = found.take(i as int).filter_map(as_hex_word());
        proof {
            assert(found.take(i + 1).drop_last() =~= found.take(i as int));
            assert(found.take(i + 1).last() == parts@[i as int]@);
        }
        match hex_word(parts[i].as_slice()) {
            Some(word) => {
                bytes.extend_from_slice(word_to_bytes(word).as_slice());
                assert(bytes@ =~= words_bytes(before.push(word)));
            },
            None => {},
        }
    }
    assert(found.take(found.len() as int) =~= found);
    bytes
}

/// Finds the HMAC key in a line of a dump of the eFuses.
fn line_key(line: &[char]) -> (key: Option<[u8; 32]>)
    ensures
        match key {
            Some(key) => key_in_line(line@) == Some(key@),
            None => key_in_line(line@) is None,
        },
{
    let block = chars_of("BLOCK_KEY2");
    let dump = chars_of("dump:");
    proof {
        reveal_strlit("dump:");
    }
    if find(line, block.as_slice()).is_none() {
        return None;
    }
    let at: usize = match find(line, dump.as_slice()) {
        Some(at) => at,
        None => return None,
    };
    let len: usize = line.len();
    let rest = &line[at + 5..len];
    assert(rest@ =~= line@.skip(at + 5));
    let key_bytes = hex_word_bytes(rest);
    if key_bytes.len() >= 32 {
        let key: [u8; 32] = to_array(&key_bytes.as_slice()[0..32]);
        assert(key@ =~= words_bytes(hex_words(rest@).take(8)));
        Some(key)
    } else {
        None
    }
}

/// Finds the HMAC key of `BLOCK_KEY2` in a dump of the eFuses.
pub fn find_hmac_key(dump: &str) -> (key: Option<[u8; 32]>)
    ensures
        match key {
            Some(key) => first_found(lines(dump@), dumped_key()) == Some(key@),
            None => first_found(lines(dump@), dumped_key()) is None,
        },
{
    let chars = chars_of(dump);
    let parts = split_lines(chars.as_slice());
    let ghost all = pieces(parts@);
    assert(all.skip(0) =~= all);
    for i in 0..parts.len()
        invariant
            all == pieces(parts@),
            all == lines(dump@),
            first_found(all.skip(i as int), dumped_key()) == first_found(all, dumped_key()),
    {
        assert(all.skip(i as int).skip(1) =~= all.skip(i + 1));
        match line_key(parts[i].as_slice()) {
            Some(key) => return Some(key),
            None => {},
        }
    }
    None
}

/// Finds the address in a line of a report.
fn line_mac(line: &[char]) -> (mac: Option<Vec<char>>)
    ensures
        match mac {
            Some(mac) => mac_in_line(line@) == Some(mac@),
            None => mac_in_line(line@) is None,
        },
{
    let label = chars_of("MAC:");
    proof {
        reveal_strlit("MAC:");
    }
    let at: usize = match find(line, label.as_slice()) {
        Some(at) => at,
        None => return None,
    };
    let len: usize = line.len();
    let rest = &line[at + 4..len];
    assert(rest@ =~= line@.skip(at + 4));
    let mac = remove_colons(trim(rest));
    if has_utf8_len(mac.as_slice(), 12) {
        Some(mac)
    } else {
        None
    }
}

/// Finds the address of the device in a report.
pub fn find_mac(report: &str) -> (mac: Option<String>)
    ensures
        match mac {
            Some(mac) => first_found(lines(report@), reported_mac()) == Some(mac@),
            None => first_found(lines(report@), reported_mac()) is None,
        },
{
    let chars = chars_of(report);
    let parts = split_lines(chars.as_slice());
    let ghost all = pieces(parts@);
    assert(all.skip(0) =~= all);
    for i in 0..parts.len()
        invariant
            all == pieces(parts@),
            all == lines(report@),
            first_found(all.skip(i as int), reported_mac()) == first_found(all, reported_mac()),
    {
        assert(all.skip(i as int).skip(1) =~= all.skip(i + 1));
        match line_mac(parts[i].as_slice()) {
            Some(mac) => return Some(string_of(mac.as_slice())),
            None => {},
        }
    }
    None
}

/// Bytes in UTF-8 are read as the text that they encode.
pub open spec fn reads_utf8(bytes: Seq<u8>) -> bool {
    valid_utf8(bytes) ==> lossy_text_of(bytes) == decode_utf8(bytes)
}

/// Passes on that a tool succeeded at its task, or what it says about its failure.
pub fn check_success(output: &ToolOutput, task: Task) -> (res: Result<(), ToolError>)
    ensures
        match res {
            Ok(()) => output.success,
            Err(e) => is_failure(e, task, *output),
        },
        !output.success ==> reads_utf8(output.stderr@),
{
    if output.success {
        Ok(())
    } else {
        Err(ToolError::Failed { task, stderr: lossy_text(output.stderr.as_slice()) })
    }
}

/// Takes the HMAC key out of what `espefuse dump` has put out.
pub fn read_efuse_hmac_key(output: &ToolOutput) -> (res: Result<[u8; 32], ToolError>)
    ensures
        ({
            let found = first_found(lines(lossy_text_of(output.stdout@)), dumped_key());
            match res {
                Ok(key) => output.success && found == Some(key@),
                Err(ToolError::KeyNotFound) => output.success && found is None,
                Err(e) => is_failure(e, Task::Dump, *output),
            }
        }),
        output.success ==> reads_utf8(output.stdout@),
        !output.success ==> reads_utf8(output.stderr@),
{
    match check_success(output, Task::Dump) {
        Ok(()) => {},
        Err(e) => return Err(e),
    }
    let dump = lossy_text(output.stdout.as_slice());
    match find_hmac_key(dump.as_str()) {
        Some(key) => Ok(key),
        None => Err(ToolError::KeyNotFound),
    }
}

/// Takes the address of the device out of what `esptool read-mac` has put out.
pub fn get_mac_address(output: &ToolOutput) -> (res: Result<String, ToolError>)
    ensures
        ({
            let found = first_found(lines(lossy_text_of(output.stdout@)), reported_mac());
            match res {
                Ok(mac) => output.success && found == Some(mac@),
                Err(ToolError::MacNotFound) => output.success && found is None,
                Err(e) => is_failure(e, Task::ReadMac, *output),
            }
        }),
        output.success ==> reads_utf8(output.stdout@),
        !output.success ==> reads_utf8(output.stderr@),
{
    match check_success(output, Task::ReadMac) {
        Ok(()) => {},
        Err(e) => return Err(e),
    }
    let report = lossy_text(output.stdout.as_slice());
    match find_mac(report.as_str()) {
        Some(mac) => Ok(mac),
        None => Err(ToolError::MacNotFound),
    }
}

} // verus!
