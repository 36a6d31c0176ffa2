//! The line logged for each request.
use vstd::prelude::*;

verus! {

/// The text logged in place of a client address that is not printable.
pub const UNKNOWN_CLIENT: &'static str = "-";

/// The line logged for a request: `CLIENT [METHOD] PATH VERSION DATE`, with
/// `-` for a client address that is not printable text.
pub open spec fn log_line(
    client: Option<Seq<char>>,
    method: Seq<char>,
    path: Seq<char>,
    version: Seq<char>,
    date: Seq<char>,
) -> Seq<char> {
    let c = match client {
        Some(c) => c,
        None => UNKNOWN_CLIENT@,
    };
    c + " ["@ + method + "] "@ + path + " "@ + version + " "@ + date
}

/// Builds the line logged for a request.
pub fn request_log_line(
    client: Option<&str>,
    method: &str,
    path: &str,
    version: &str,
    date: &str,
) -> (r: String)
    ensures
        r@ == log_line(
            match client {
                Some(c) => Some(c@),
                None => None,
            },
            method@,
            path@,
            version@,
            date@,
        ),
{
    let mut line = match client {
        Some(c) => c.to_string(),
        None => UNKNOWN_CLIENT.to_string(),
    };
    line.append(" [");
    line.append(method);
    line.append("] ");
    line.append(path);
    line.append(" ");
    line.append(version);
    line.append(" ");
    line.append(date);
    line
}

/// The logged line is the client address (`-` when it is not printable
/// text), a space, the method in square brackets, a space, the path, a
/// space, the version, a space and the date.
pub proof fn lemma_log_line(
    client: Option<Seq<char>>,
    method: Seq<char>,
    path: Seq<char>,
    version: Seq<char>,
    date: Seq<char>,
)
    ensures
        log_line(client, method, path, version, date) == (match client {
            Some(c) => c,
            None => seq!['-'],
        }) + seq![' ', '['] + method + seq![']', ' '] + path + seq![' '] + version + seq![' '] + date,
{
    reveal_strlit("-");
    reveal_strlit(" [");
    reveal_strlit("] ");
    reveal_strlit(" ");
    assert(UNKNOWN_CLIENT@ =~= seq!['-']);
    assert(" ["@ =~= seq![' ', '[']);
    assert("] "@ =~= seq![']', ' ']);
    assert(" "@ =~= seq![' ']);
}

} // verus!
