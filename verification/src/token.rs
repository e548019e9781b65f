//! Request tokens and download links: which package a token names, the
//! address that resolves it, and the file name that a download link gives.

use crate::text::{
    contains_pattern, find_from, first_index, nth_segment, parse_number, parsed_number,
    range_contains, segment,
};
use vstd::prelude::*;
use vstd::string::*;

verus! {

/// Host and root path of the remote service, without a scheme.
pub const BASE_URI: &'static str = "api.nexusmods.com/v1/games/";

/// Number of leading characters that hold a token's scheme.
pub const SCHEME_LEN: usize = 6;

/// `s` up to its first question mark.
pub open spec fn without_query(s: Seq<char>) -> Seq<char> {
    s.subrange(0, first_index(s, '?'))
}

/// Position, among the pieces of a link cut at every slash, of the piece that
/// holds the file name: one earlier where the host is a content-delivery host.
pub open spec fn file_name_position(host: Seq<char>) -> nat {
    if contains_pattern(host, "nexus-cdn"@) {
        5
    } else {
        6
    }
}

/// File name that a download link gives, where the link is long enough.
pub open spec fn file_name_of(uri: Seq<char>) -> Option<Seq<char>> {
    match segment(uri, '/', 2) {
        None => None,
        Some(host) => match segment(uri, '/', file_name_position(host)) {
            None => None,
            Some(part) => Some(without_query(part)),
        },
    }
}

/// Package number that a token names: its fifth piece when cut at every
/// slash, read as a number; 0 where that piece is missing or no number.
pub open spec fn mod_id_of(token: Seq<char>) -> u64 {
    match segment(token, '/', 4) {
        None => 0,
        Some(piece) => match parsed_number(piece) {
            None => 0,
            Some(id) => id,
        },
    }
}

/// File number that a token names: its seventh piece when cut at every
/// slash, up to the query, read as a number; 0 where that piece is missing
/// or no number.
pub open spec fn file_id_of(token: Seq<char>) -> u64 {
    match segment(token, '/', 6) {
        None => 0,
        Some(piece) => match parsed_number(without_query(piece)) {
            None => 0,
            Some(id) => id,
        },
    }
}

/// Address that resolves a token: the token without its scheme, cut at the
/// first question mark into path and query, set behind `base`.
pub open spec fn download_url_of(base: Seq<char>, token: Seq<char>) -> Option<Seq<char>> {
    if token.len() < SCHEME_LEN {
        None
    } else {
        let rest = token.subrange(SCHEME_LEN as int, token.len() as int);
        match segment(rest, '?', 1) {
            None => None,
            Some(query) => Some(
                "https://"@ + base + without_query(rest) + "/download_link.json?"@ + query,
            ),
        }
    }
}

/// The parts of a request token.
#[derive(Clone, Debug)]
pub struct TokenParts {
    /// The game that the token is for.
    pub game: String,
    /// The path of the resource within that game.
    pub resource_path: String,
    /// What follows the first question mark, up to the next.
    pub query: String,
}

/// The path that a token names: the token without its scheme, up to the
/// first question mark.
pub open spec fn token_path(token: Seq<char>) -> Seq<char> {
    without_query(token.subrange(SCHEME_LEN as int, token.len() as int))
}

/// The game that a path is for: its first piece.
pub open spec fn game_of(path: Seq<char>) -> Seq<char> {
    path.subrange(0, first_index(path, '/'))
}

/// The path of the resource within its game: what follows the first slash.
pub open spec fn resource_of(path: Seq<char>) -> Seq<char> {
    if first_index(path, '/') < path.len() {
        path.subrange(first_index(path, '/') + 1, path.len() as int)
    } else {
        Seq::empty()
    }
}

/// The query of a token, where it has one.
pub open spec fn query_of(token: Seq<char>) -> Option<Seq<char>> {
    if token.len() < SCHEME_LEN {
        None
    } else {
        segment(token.subrange(SCHEME_LEN as int, token.len() as int), '?', 1)
    }
}

/// Cuts a token into the game, the path of the resource within the game, and
/// the query. `None` where the token is shorter than its scheme or has no
/// query.
pub fn parse_token(token: &str) -> (r: Option<TokenParts>)
    ensures
        match r {
            Some(parts) => {
                &&& query_of(token@) == Some(parts.query@)
                &&& parts.game@ == game_of(token_path(token@))
                &&& parts.resource_path@ == resource_of(token_path(token@))
            },
            None => query_of(token@) is None,
        },
{
    let len: usize = token.unicode_len();
    if len < SCHEME_LEN {
        return None;
    }
    let rest = token.substring_char(SCHEME_LEN, len);
    match nth_segment(rest, '?', 1) {
        None => None,
        Some((from, to)) => {
            let stop: usize = find_from(rest, '?', 0);
            assert(rest@.subrange(0, rest@.len() as int) =~= rest@);
            let path = rest.substring_char(0, stop);
            let slash: usize = find_from(path, '/', 0);
            assert(path@.subrange(0, path@.len() as int) =~= path@);
            let resource_path = if slash < stop {
                String::from_str(path.substring_char(slash + 1, stop))
            } else {
                String::new()
            };
            Some(
                TokenParts {
                    game: String::from_str(path.substring_char(0, slash)),
                    resource_path,
                    query: String::from_str(rest.substring_char(from, to)),
                },
            )
        },
    }
}

/// The address that resolves a token holds the token's game, the path of its
/// resource and its query, in that order.
pub proof fn lemma_download_url_parts(base: Seq<char>, token: Seq<char>)
    requires
        query_of(token) is Some,
        token_path(token).contains('/'),
    ensures
        download_url_of(base, token) == Some(
            "https://"@ + base + game_of(token_path(token)) + seq!['/'] + resource_of(
                token_path(token),
            ) + "/download_link.json?"@ + query_of(token).unwrap(),
        ),
{
    let path = token_path(token);
    crate::text::lemma_first_index_bounds(path, '/');
    let i = first_index(path, '/');
    if i >= path.len() {
        let j = choose|j: int| 0 <= j < path.len() && path[j] == '/';
        assert(false);
    }
    assert(path =~= game_of(path) + seq!['/'] + resource_of(path));
    assert("https://"@ + base + path =~= "https://"@ + base + game_of(path) + seq!['/']
        + resource_of(path));
}

/// The file name that a download link gives: the sixth piece of the link cut
/// at every slash where the host is a content-delivery host, else the
/// seventh, without its query. `None` where the link has too few pieces.
pub fn get_filename(uri: &str) -> (r: Option<String>)
    ensures
        match r {
            Some(name) => file_name_of(uri@) == Some(name@),
            None => file_name_of(uri@) is None,
        },
{
    let host = nth_segment(uri, '/', 2);
    match host {
        None => None,
        Some((from, to)) => {
            let at: usize = if range_contains(uri, from, to, "nexus-cdn") {
                5
            } else {
                6
            };
            match nth_segment(uri, '/', at) {
                None => None,
                Some((begin, end)) => {
                    let part = uri.substring_char(begin, end);
                    let stop: usize = find_from(part, '?', 0);
                    assert(part@.subrange(0, part@.len() as int) =~= part@);
                    Some(String::from_str(part.substring_char(0, stop)))
                },
            }
        },
    }
}

/// The package number that a token names, or 0.
pub fn get_mod_id(requested_uri: &str) -> (id: u64)
    ensures
        id == mod_id_of(requested_uri@),
{
    match nth_segment(requested_uri, '/', 4) {
        None => 0,
        Some((from, to)) => match parse_number(requested_uri, from, to) {
            None => 0,
            Some(id) => id,
        },
    }
}

/// The file number that a token names, or 0.
pub fn get_file_id(requested_uri: &str) -> (id: u64)
    ensures
        id == file_id_of(requested_uri@),
{
    match nth_segment(requested_uri, '/', 6) {
        None => 0,
        Some((from, to)) => {
            let piece = requested_uri.substring_char(from, to);
            let stop: usize = find_from(piece, '?', 0);
            assert(piece@.subrange(0, piece@.len() as int) =~= piece@);
            match parse_number(piece, 0, stop) {
                None => 0,
                Some(id) => id,
            }
        },
    }
}

/// The address that resolves a token to its download links. `None` where
/// the token is shorter than its scheme or has no query.
pub fn get_download_url(base_path: &str, requested_uri: &str) -> (r: Option<String>)
    ensures
        match r {
            Some(url) => download_url_of(base_path@, requested_uri@) == Some(url@),
            None => download_url_of(base_path@, requested_uri@) is None,
        },
{
    let len: usize = requested_uri.unicode_len();
    if len < SCHEME_LEN {
        return None;
    }
    let rest = requested_uri.substring_char(SCHEME_LEN, len);
    match nth_segment(rest, '?', 1) {
        None => None,
        Some((from, to)) => {
            let stop: usize = find_from(rest, '?', 0);
            assert(rest@.subrange(0, rest@.len() as int) =~= rest@);
            let mut url = String::from_str("https://");
            url.append(base_path);
            url.append(rest.substring_char(0, stop));
            url.append("/download_link.json?");
            url.append(rest.substring_char(from, to));
            Some(url)
        },
    }
}

} // verus!
