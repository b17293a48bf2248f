//! Errors of the authenticator daemon, with their exit codes, and its list of
//! notification endpoints.
use vstd::prelude::*;

use crate::text::{owned, push_str, str_equals};

verus! {

/// The kind of an error of the authenticator daemon.
#[derive(Clone, Copy, Debug, PartialEq, Eq, Structural)]
pub enum ErrorKind {
    GeneralError,
    AuthdAlreadyStarted,
    Unexpected,
    Unknown,
}

/// The exit code of an error kind (none of the reserved exit codes).
pub open spec fn kind_code(kind: ErrorKind) -> i32 {
    match kind {
        ErrorKind::GeneralError => 1,
        ErrorKind::AuthdAlreadyStarted => 10,
        ErrorKind::Unexpected => 20,
        ErrorKind::Unknown => 1,
    }
}

/// The name of an error kind.
pub open spec fn kind_description(kind: ErrorKind) -> Seq<char> {
    match kind {
        ErrorKind::GeneralError => "GeneralError"@,
        ErrorKind::AuthdAlreadyStarted => "AuthdAlreadyStarted"@,
        ErrorKind::Unexpected => "Unexpected"@,
        ErrorKind::Unknown => "Unknown"@,
    }
}

/// The kind of error that an exit code stands for; codes other than those of the
/// kinds stand for an unknown error.
pub open spec fn kind_of_code(code: i32) -> ErrorKind {
    if code == 1 {
        ErrorKind::GeneralError
    } else if code == 10 {
        ErrorKind::AuthdAlreadyStarted
    } else if code == 20 {
        ErrorKind::Unexpected
    } else {
        ErrorKind::Unknown
    }
}

impl ErrorKind {
    /// The exit code of this kind of error.
    pub fn error_code(&self) -> (res: i32)
        ensures
            res == kind_code(*self),
    {
        match self {
            ErrorKind::GeneralError => 1,
            ErrorKind::AuthdAlreadyStarted => 10,
            ErrorKind::Unexpected => 20,
            ErrorKind::Unknown => 1,
        }
    }

    /// The name of this kind of error.
    pub fn description(&self) -> (res: &'static str)
        ensures
            res@ == kind_description(*self),
    {
        match self {
            ErrorKind::GeneralError => "GeneralError",
            ErrorKind::AuthdAlreadyStarted => "AuthdAlreadyStarted",
            ErrorKind::Unexpected => "Unexpected",
            ErrorKind::Unknown => "Unknown",
        }
    }

    fn from_code(error_code: i32) -> (res: ErrorKind)
        ensures
            res == kind_of_code(error_code),
    {
        if error_code == 1 {
            ErrorKind::GeneralError
        } else if error_code == 10 {
            ErrorKind::AuthdAlreadyStarted
        } else if error_code == 20 {
            ErrorKind::Unexpected
        } else {
            ErrorKind::Unknown
        }
    }
}

/// An error of the authenticator daemon: its kind, a message, and the suggestions
/// given to the user, if any.
#[derive(Debug)]
pub struct Error {
    kind: ErrorKind,
    message: String,
    suggestions: Option<Vec<String>>,
}

/// The texts of a list of strings.
pub open spec fn texts(v: Seq<String>) -> Seq<Seq<char>> {
    v.map_values(|s: String| s@)
}

/// Texts joined by new lines.
pub open spec fn join_lines(parts: Seq<Seq<char>>) -> Seq<char>
    decreases parts.len(),
{
    if parts.len() == 0 {
        Seq::empty()
    } else if parts.len() == 1 {
        parts[0]
    } else {
        join_lines(parts.drop_last()) + "\n"@ + parts.last()
    }
}

impl Error {
    /// The kind of this error.
    pub closed spec fn spec_kind(&self) -> ErrorKind {
        self.kind
    }

    /// The message of this error.
    pub closed spec fn spec_message(&self) -> Seq<char> {
        self.message@
    }

    /// The suggestions of this error, if any.
    pub closed spec fn spec_suggestions(&self) -> Option<Seq<Seq<char>>> {
        match self.suggestions {
            Some(s) => Some(texts(s@)),
            None => None,
        }
    }

    /// The text of this error: the kind's name and the message, followed on lines
    /// of their own by a header and the suggestions, if any, the whole preceded by
    /// the kind's name once more.
    pub open spec fn rendered(&self) -> Seq<char> {
        let head = kind_description(self.spec_kind()) + " - "@ + self.spec_message();
        let message = match self.spec_suggestions() {
            None => head,
            Some(s) => join_lines(seq![head, "Suggestions --- "@] + s),
        };
        kind_description(self.spec_kind()) + " - "@ + message
    }

    /// An error of a kind, with a message and no suggestion.
    pub fn from_message(kind: ErrorKind, message: String) -> (res: Error)
        ensures
            res.spec_kind() == kind,
            res.spec_message() == message@,
            res.spec_suggestions() is None,
    {
        Error { kind, message, suggestions: None }
    }

    /// An error of a kind, with a message and suggestions.
    pub fn from_message_with_suggestions(
        kind: ErrorKind,
        message: String,
        suggestions: Vec<String>,
    ) -> (res: Error)
        ensures
            res.spec_kind() == kind,
            res.spec_message() == message@,
            res.spec_suggestions() == Some(texts(suggestions@)),
    {
        Error { kind, message, suggestions: Some(suggestions) }
    }

    /// An error of the kind that an exit code stands for, with a message.
    pub fn from_code(error_code: i32, message: String) -> (res: Error)
        ensures
            res.spec_kind() == kind_of_code(error_code),
            res.spec_message() == message@,
            res.spec_suggestions() is None,
    {
        Error { kind: ErrorKind::from_code(error_code), message, suggestions: None }
    }

    /// An error of the kind that an exit code stands for, with a message and
    /// suggestions.
    pub fn from_code_with_suggestion(error_code: i32, message: String, suggestions: Vec<String>) -> (res: Error)
        ensures
            res.spec_kind() == kind_of_code(error_code),
            res.spec_message() == message@,
            res.spec_suggestions() == Some(texts(suggestions@)),
    {
        Error { kind: ErrorKind::from_code(error_code), message, suggestions: Some(suggestions) }
    }

    /// The exit code of this error.
    pub fn code(&self) -> (res: i32)
        ensures
            res == kind_code(self.spec_kind()),
    {
        self.kind.error_code()
    }

    /// The text of this error (see `rendered`).
    pub fn to_display_string(&self) -> (res: String)
        ensures
            res@ == self.rendered(),
    {
        let desc = self.kind.description();
        let mut head = owned(desc);
        push_str(&mut head, " - ");
        push_str(&mut head, self.message.as_str());
        let message = match &self.suggestions {
            None => head,
            Some(sugs) => {
                let mut out = head;
                push_str(&mut out, "\n");
                push_str(&mut out, "Suggestions --- ");
                let ghost first = seq![self.kind_head(), "Suggestions --- "@];
                let mut i: usize = 0;
                proof {
                    reveal_with_fuel(join_lines, 2);
                    assert(first.drop_last() =~= seq![self.kind_head()]);
                    assert((first + texts(sugs@).take(0)) =~= first);
                    assert(join_lines(first) == self.kind_head() + "\n"@ + "Suggestions --- "@);
                }
                while i < sugs.len()
                    invariant
                        i <= sugs@.len(),
                        first == seq![self.kind_head(), "Suggestions --- "@],
                        out@ == join_lines(first + texts(sugs@).take(i as int)),
                    decreases sugs@.len() - i,
                {
                    push_str(&mut out, "\n");
                    push_str(&mut out, sugs[i].as_str());
                    proof {
                        let next = first + texts(sugs@).take(i + 1);
                        assert(next.drop_last() =~= first + texts(sugs@).take(i as int));
                        assert(next.last() == sugs@[i as int]@);
                    }
                    i = i + 1;
                }
                proof {
                    assert(texts(sugs@).take(sugs@.len() as int) =~= texts(sugs@));
                }
                out
            },
        };
        let mut res = owned(desc);
        push_str(&mut res, " - ");
        push_str(&mut res, message.as_str());
        res
    }

    spec fn kind_head(&self) -> Seq<char> {
        kind_description(self.kind) + " - "@ + self.message@
    }
}

/// The notification endpoints of the daemon: each URL with its optional data, as a
/// list of pairs (the last occurrence of a URL wins).
pub type NotifEndpointsList = Vec<(String, Option<String>)>;

/// The view of an optional string.
pub open spec fn opt_text(o: Option<String>) -> Option<Seq<char>> {
    match o {
        Some(s) => Some(s@),
        None => None,
    }
}

/// The endpoints of a list, as a map.
pub open spec fn endpoints_view(items: Seq<(String, Option<String>)>) -> Map<Seq<char>, Option<Seq<char>>>
    decreases items.len(),
{
    if items.len() == 0 {
        Map::empty()
    } else {
        endpoints_view(items.drop_last()).insert(items.last().0@, opt_text(items.last().1))
    }
}

/// Removes an endpoint from the list, wherever it occurs.
pub fn remove_notif_endpoint_from_list(notif_endpoints_list: &mut NotifEndpointsList, url: &str)
    ensures
        endpoints_view(final(notif_endpoints_list)@) == endpoints_view(old(notif_endpoints_list)@).remove(url@),
        final(notif_endpoints_list)@ == old(notif_endpoints_list)@.filter(
            |e: (String, Option<String>)| e.0@ != url@,
        ),
{
    let mut kept: NotifEndpointsList = Vec::new();
    let mut i: usize = 0;
    let n = notif_endpoints_list.len();
    while i < n
        invariant
            n == old(notif_endpoints_list)@.len(),
            *notif_endpoints_list == *old(notif_endpoints_list),
            i <= n,
            endpoints_view(kept@) == endpoints_view(old(notif_endpoints_list)@.take(i as int)).remove(url@),
            kept@ == old(notif_endpoints_list)@.take(i as int).filter(
                |e: (String, Option<String>)| e.0@ != url@,
            ),
        decreases n - i,
    {
        let ghost before = kept@;
        let ghost items = old(notif_endpoints_list)@.take(i + 1);
        proof {
            assert(items.drop_last() =~= old(notif_endpoints_list)@.take(i as int));
            assert(items.last() == old(notif_endpoints_list)@[i as int]);
            reveal(Seq::filter);
        }
        if !str_equals(notif_endpoints_list[i].0.as_str(), url) {
            let k = notif_endpoints_list[i].0.clone();
            let v = notif_endpoints_list[i].1.clone();
            kept.push((k, v));
            proof {
                assert(kept@.drop_last() =~= before);
                assert(endpoints_view(kept@) =~= endpoints_view(items).remove(url@));
            }
        } else {
            proof {
                assert(endpoints_view(kept@) =~= endpoints_view(items).remove(url@));
            }
        }
        i = i + 1;
    }
    proof {
        assert(old(notif_endpoints_list)@.take(n as int) =~= old(notif_endpoints_list)@);
    }
    *notif_endpoints_list = kept;
}


/// What `urlencoding::decode` gives back for a text, if it decodes to valid UTF-8.
pub uninterp spec fn url_decoding(s: Seq<char>) -> Option<Seq<char>>;

/// Decodes a percent-encoded text with `urlencoding::decode`. The contract names
/// the result, and claims what the crate's source shows: a text without `%` comes
/// back unchanged.
#[verifier::external_body]
fn url_decode(s: &str) -> (res: Option<String>)
    ensures
        match res {
            Some(r) => url_decoding(s@) == Some(r@) && (!s@.contains('%') ==> r@ == s@),
            None => url_decoding(s@) is None && s@.contains('%'),
        },
{
    urlencoding::decode(s).ok().map(|c| c.into_owned())
}

/// The arguments of a request to create an account: the passphrase and the
/// password, decoded, and the secret key.
#[derive(Debug)]
pub struct CreateAccRequest {
    pub passphrase: String,
    pub password: String,
    pub sk: String,
}

/// Reads the arguments of a request to create an account: exactly three, the
/// first two percent-encoded.
pub fn parse_create_acc_args(args: &Vec<String>) -> (res: Result<CreateAccRequest, String>)
    ensures
        args@.len() != 3 ==> (res matches Err(m) && m@ == "Incorrect number of arguments for 'create' action"@),
        args@.len() == 3 ==> match (url_decoding(args@[0]@), url_decoding(args@[1]@)) {
            (None, _) => res matches Err(m) && m@ == "The passphrase couldn't be decoded from the request"@,
            (Some(_), None) => res matches Err(m) && m@ == "The password couldn't be decoded from the request"@,
            (Some(p), Some(w)) => res matches Ok(r) && r.passphrase@ == p && r.password@ == w && r.sk@
                == args@[2]@,
        },
{
    if args.len() != 3 {
        return Err(owned("Incorrect number of arguments for 'create' action"));
    }
    let passphrase = match url_decode(args[0].as_str()) {
        Some(p) => p,
        None => {
            return Err(owned("The passphrase couldn't be decoded from the request"));
        },
    };
    let password = match url_decode(args[1].as_str()) {
        Some(p) => p,
        None => {
            return Err(owned("The password couldn't be decoded from the request"));
        },
    };
    Ok(CreateAccRequest { passphrase, password, sk: args[2].clone() })
}
} // verus!
