//! Helpers of the command-line tools: hex renderings, argument parsing, and the
//! decisions taken before prompting the user or stopping nodes.
use vstd::prelude::*;

use crate::text::{bytes_to_hex, decimal, hex_of, owned, push_str, str_equals, str_to_chars};
use crate::xorurl::XorName;

verus! {

/// Renders bytes as lower-case hexadecimal, two digits per byte.
pub fn vec_to_hex(hash: Vec<u8>) -> (res: String)
    ensures
        res@ == hex_of(hash@),
{
    bytes_to_hex(hash.as_slice())
}

/// Renders the bytes of a XoR name as lower-case hexadecimal.
pub fn xorname_to_hex(xorname: &XorName) -> (res: String)
    ensures
        res@ == hex_of(xorname.0@),
{
    bytes_to_hex(&xorname.0)
}

/// Why a text is not a `u64`.
pub enum ParseIntErrorKind {
    Empty,
    InvalidDigit,
    PosOverflow,
}

/// The value of a decimal digit character.
pub open spec fn digit_value(c: char) -> Option<nat> {
    if '0' <= c && c <= '9' {
        Some((c as nat - '0' as nat) as nat)
    } else {
        None
    }
}

/// Reads decimal digits from position `i` on, onto the value `acc` already read:
/// the first character that is not a digit is an invalid digit, and a value above
/// `u64::MAX` is an overflow, whichever comes first.
pub open spec fn scan_digits(d: Seq<char>, i: nat, acc: nat) -> Result<nat, ParseIntErrorKind>
    decreases d.len() - i,
{
    if i >= d.len() {
        Ok(acc)
    } else {
        match digit_value(d[i as int]) {
            None => Err(ParseIntErrorKind::InvalidDigit),
            Some(v) => if acc * 10 + v > u64::MAX {
                Err(ParseIntErrorKind::PosOverflow)
            } else {
                scan_digits(d, i + 1, acc * 10 + v)
            },
        }
    }
}

/// The outcome of reading a text as a `u64` (`str::parse::<u64>`): an empty text is
/// refused, a lone sign is an invalid digit, and one leading `+` is allowed.
pub open spec fn parse_u64_outcome(s: Seq<char>) -> Result<nat, ParseIntErrorKind> {
    if s.len() == 0 {
        Err(ParseIntErrorKind::Empty)
    } else if s.len() == 1 && (s[0] == '+' || s[0] == '-') {
        Err(ParseIntErrorKind::InvalidDigit)
    } else if s[0] == '+' {
        scan_digits(s, 1, 0)
    } else {
        scan_digits(s, 0, 0)
    }
}

/// The text of a reason why a text is not a `u64`.
pub open spec fn parse_int_error_text(kind: ParseIntErrorKind) -> Seq<char> {
    match kind {
        ParseIntErrorKind::Empty => "cannot parse integer from empty string"@,
        ParseIntErrorKind::InvalidDigit => "invalid digit found in string"@,
        ParseIntErrorKind::PosOverflow => "number too large to fit in target type"@,
    }
}

proof fn lemma_scan_digits_bound(d: Seq<char>, i: nat, acc: nat)
    ensures
        scan_digits(d, i, acc) matches Ok(v) ==> v <= u64::MAX || (i >= d.len() && v == acc),
    decreases d.len() - i,
{
    if i < d.len() {
        if let Some(v) = digit_value(d[i as int]) {
            if acc * 10 + v <= u64::MAX {
                lemma_scan_digits_bound(d, i + 1, acc * 10 + v);
            }
        }
    }
}

/// Reads a text as a `u64`, the way `str::parse::<u64>` does.
pub fn parse_u64(src: &str) -> (res: Result<u64, ParseIntErrorKind>)
    ensures
        match parse_u64_outcome(src@) {
            Ok(v) => res matches Ok(r) && r == v,
            Err(k) => res matches Err(e) && e == k,
        },
{
    let chars = str_to_chars(src);
    let n = chars.len();
    if n == 0 {
        return Err(ParseIntErrorKind::Empty);
    }
    if n == 1 && (chars[0] == '+' || chars[0] == '-') {
        return Err(ParseIntErrorKind::InvalidDigit);
    }
    let mut i: usize = if chars[0] == '+' {
        1
    } else {
        0
    };
    let ghost start = i as nat;
    let mut acc: u64 = 0;
    assert(parse_u64_outcome(src@) == scan_digits(src@, start, 0));
    while i < n
        invariant
            chars@ == src@,
            n == chars@.len(),
            start <= i <= n,
            parse_u64_outcome(src@) == scan_digits(src@, start, 0),
            scan_digits(src@, start, 0) == scan_digits(src@, i as nat, acc as nat),
        decreases n - i,
    {
        let c = chars[i];
        if !('0' <= c && c <= '9') {
            return Err(ParseIntErrorKind::InvalidDigit);
        }
        let v = (c as u32 - '0' as u32) as u64;
        assert(digit_value(c) == Some(v as nat));
        if acc > 1844674407370955161 || (acc == 1844674407370955161 && v > 5) {
            return Err(ParseIntErrorKind::PosOverflow);
        }
        acc = acc * 10 + v;
        i = i + 1;
    }
    Ok(acc)
}

/// Reads a transaction id, a `u64`; the error says why the text is not one.
pub fn parse_tx_id(src: &str) -> (res: Result<u64, String>)
    ensures
        match parse_u64_outcome(src@) {
            Ok(v) => res matches Ok(r) && r == v,
            Err(k) => res matches Err(msg) && msg@ == parse_int_error_text(k)
                + ". A valid TX Id is a number between 0 and 2^64"@,
        },
{
    match parse_u64(src) {
        Ok(v) => Ok(v),
        Err(kind) => {
            let mut msg = match kind {
                ParseIntErrorKind::Empty => owned("cannot parse integer from empty string"),
                ParseIntErrorKind::InvalidDigit => owned("invalid digit found in string"),
                ParseIntErrorKind::PosOverflow => owned("number too large to fit in target type"),
            };
            push_str(&mut msg, ". A valid TX Id is a number between 0 and 2^64");
            Err(msg)
        },
    }
}

/// Maps `-` (and the empty text) to the empty text, both of which mean to read from
/// the standard input; any other text is kept.
pub fn parse_stdin_arg(src: &str) -> (res: String)
    ensures
        res@ == (if src@.len() == 0 || src@ == "-"@ {
            Seq::<char>::empty()
        } else {
            src@
        }),
{
    if src.is_empty() || str_equals(src, "-") {
        proof {
            reveal_strlit("");
        }
        String::new()
    } else {
        owned(src)
    }
}

/// Where a secret key comes from: the one given, or the user, prompted with a message.
pub enum SecretKeySource {
    Given(String),
    Prompt(String),
}

/// The prompt for a secret key: it names the key's XOR-URL if there is one, and
/// the message otherwise.
pub open spec fn secret_key_prompt(key_xorurl: Seq<char>, msg: Seq<char>) -> Seq<char> {
    if key_xorurl.len() == 0 {
        "Enter secret key corresponding to "@ + msg + ": "@
    } else {
        "Enter secret key corresponding to public key at \""@ + key_xorurl + "\": "@
    }
}

/// The secret key given, if it is not empty; otherwise the prompt to ask the user
/// for it with (the caller prompts, and fails with `Invalid input` on an empty answer).
pub fn get_secret_key(key_xorurl: &str, sk: Option<String>, msg: &str) -> (res: SecretKeySource)
    ensures
        match sk {
            Some(s) if s@.len() > 0 => res matches SecretKeySource::Given(g) && g@ == s@,
            _ => res matches SecretKeySource::Prompt(p) && p@ == secret_key_prompt(key_xorurl@, msg@),
        },
{
    let sk = match sk {
        Some(s) => s,
        None => String::new(),
    };
    if !sk.as_str().is_empty() {
        return SecretKeySource::Given(sk);
    }
    let prompt = if key_xorurl.is_empty() {
        let mut p = owned("Enter secret key corresponding to ");
        push_str(&mut p, msg);
        push_str(&mut p, ": ");
        p
    } else {
        let mut p = owned("Enter secret key corresponding to public key at \"");
        push_str(&mut p, key_xorurl);
        push_str(&mut p, "\": ");
        p
    };
    SecretKeySource::Prompt(prompt)
}

/// Where an argument comes from: the one given, or the standard input, read after
/// printing a message.
pub enum ArgSource {
    Given(String),
    Stdin(String),
}

/// The argument given, if it is not empty; otherwise the message to print before
/// reading it from the standard input (the message given, or a default one).
pub fn get_from_arg_or_stdin(arg: Option<String>, message: Option<&str>) -> (res: ArgSource)
    ensures
        match arg {
            Some(t) if t@.len() > 0 => res matches ArgSource::Given(g) && g@ == t@,
            _ => res matches ArgSource::Stdin(m) && m@ == (match message {
                Some(msg) => msg@,
                None => "...awaiting data from STDIN stream..."@,
            }),
        },
{
    match arg {
        Some(t) if !t.as_str().is_empty() => ArgSource::Given(t),
        _ => {
            let m = match message {
                Some(msg) => owned(msg),
                None => owned("...awaiting data from STDIN stream..."),
            };
            ArgSource::Stdin(m)
        },
    }
}

/// Installing the node binary is not available: self updates are disabled.
pub fn node_install(_node_path: Option<String>) -> (res: Result<(), String>)
    ensures
        res matches Err(msg) && msg@ == "Self updates are disabled"@,
{
    Err(owned("Self updates are disabled"))
}

/// The executable name of nodes launched without a node path.
pub const SN_NODE_EXECUTABLE: &'static str = "sn_node";

/// The file name of a node path, as the file system reports it.
pub enum FileNameInfo {
    /// The path names no file.
    Missing,
    /// The file name is not valid unicode.
    InvalidUnicode,
    Name(String),
}

/// What the file system reports of a node path given to stop nodes with.
pub struct NodePathInfo {
    /// The path, as displayed.
    pub display: String,
    /// Whether the path is an existing file.
    pub is_file: bool,
    pub file_name: FileNameInfo,
}

/// The message that refuses a node path without an executable file name.
pub open spec fn no_filename_message(display: Seq<char>) -> Seq<char> {
    "Node path provided ("@ + display
        + ") is invalid as it doens't include the executable filename"@
}

/// The name of the executable whose running instances are to be stopped: that of
/// the file at the node path given, or `sn_node`. A path that is not a file, or
/// whose file name is missing or not unicode, is refused.
pub fn node_shutdown(node_path: Option<NodePathInfo>) -> (res: Result<String, String>)
    ensures
        match node_path {
            None => res matches Ok(n) && n@ == "sn_node"@,
            Some(p) => if !p.is_file {
                res matches Err(m) && m@ == no_filename_message(p.display@)
            } else {
                match p.file_name {
                    FileNameInfo::Name(n) => res matches Ok(r) && r@ == n@,
                    FileNameInfo::Missing => res matches Err(m) && m@ == no_filename_message(
                        p.display@,
                    ),
                    FileNameInfo::InvalidUnicode => res matches Err(m) && m@ == "Node path provided ("@
                        + p.display@ + ") contains invalid unicode chars"@,
                }
            },
        },
{
    match node_path {
        None => Ok(owned(SN_NODE_EXECUTABLE)),
        Some(p) => {
            if !p.is_file {
                let mut m = owned("Node path provided (");
                push_str(&mut m, p.display.as_str());
                push_str(&mut m, ") is invalid as it doens't include the executable filename");
                return Err(m);
            }
            match p.file_name {
                FileNameInfo::Name(n) => Ok(n),
                FileNameInfo::Missing => {
                    let mut m = owned("Node path provided (");
                    push_str(&mut m, p.display.as_str());
                    push_str(
                        &mut m,
                        ") is invalid as it doens't include the executable filename",
                    );
                    Err(m)
                },
                FileNameInfo::InvalidUnicode => {
                    let mut m = owned("Node path provided (");
                    push_str(&mut m, p.display.as_str());
                    push_str(&mut m, ") contains invalid unicode chars");
                    Err(m)
                },
            }
        },
    }
}

} // verus!
