//! The parsed configuration, as plain values. Reading and deserializing the
//! configuration file, and turning these rows into connection options, is
//! the surrounding program's job.

use crate::store::opt_view;
use crate::strutil::{find_char, find_char_spec};
use vstd::prelude::*;
use vstd::string::StringExecFns;

verus! {

/// One database connection description; exactly one of `password` and
/// `password_file` is normally set.
pub struct DbInfo {
    pub user: String,
    pub password: Option<String>,
    pub password_file: Option<String>,
    pub host: String,
    pub database: String,
}

/// The upstream homeserver: its base URL and its read-only database.
pub struct DendriteInfo {
    pub host: String,
    pub db: DbInfo,
}

/// The chat bot's account and storage settings.
pub struct BotInfo {
    pub user: String,
    pub homeserver_url: Option<String>,
    pub state_store: String,
    pub secret_file: Option<String>,
    pub password_file: Option<String>,
    pub db: DbInfo,
    pub display_name: Option<String>,
    pub avatar: Option<String>,
}

/// The whole configuration.
pub struct Config {
    pub listen: String,
    pub synapse: DendriteInfo,
    pub bot: BotInfo,
}

/// The server part of a user id: everything after the first colon, or the
/// whole id when it has none.
pub open spec fn server_name_of(u: Seq<char>) -> Seq<char> {
    match find_char_spec(u, ':', 0) {
        Some(i) => u.subrange(i + 1, u.len() as int),
        None => u,
    }
}

impl BotInfo {
    /// The homeserver URL to contact: the configured one, or the user id's
    /// server over HTTPS.
    pub fn homeserver_url(&self) -> (r: String)
        ensures
            r@ == match opt_view(self.homeserver_url) {
                Some(u) => u,
                None => "https://"@ + server_name_of(self.user@),
            },
    {
        match &self.homeserver_url {
            Some(u) => u.clone(),
            None => {
                let len = self.user.unicode_len();
                let server = match find_char(self.user.as_str(), ':', 0) {
                    Some(i) => {
                        proof {
                            crate::strutil::lemma_find_char_spec(self.user@, ':', 0);
                        }
                        self.user.as_str().substring_char(i + 1, len)
                    },
                    None => self.user.as_str(),
                };
                let mut r = "https://".to_owned();
                r.append(server);
                r
            },
        }
    }

    /// Where the bot's session blob lives: the configured secret file, or
    /// `session.json` inside the state store.
    pub fn session_file_path(&self) -> (r: String)
        ensures
            r@ == match opt_view(self.secret_file) {
                Some(p) => p,
                None => self.state_store@ + "/session.json"@,
            },
    {
        match &self.secret_file {
            Some(p) => p.clone(),
            None => {
                let mut r = self.state_store.clone();
                r.append("/session.json");
                r
            },
        }
    }
}

} // verus!
