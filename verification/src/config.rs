use vstd::prelude::*;

verus! {

/// The server's configuration, as read from its configuration file.
pub struct Config {
    pub general: GeneralConfig,
    pub download: DownloadConfig,
    pub servers: Vec<ServerConfig>,
    pub news: NewsConfig,
    pub patches: Vec<PatchConfig>,
    pub database: DatabaseConfig,
}

/// Listening port and the newest client version.
pub struct GeneralConfig {
    pub listen_port: u16,
    pub last_version: i16,
}

/// Where clients download patches from.
pub struct DownloadConfig {
    pub ftp_url: String,
    pub ftp_path: String,
}

/// A game server offered in the server list.
pub struct ServerConfig {
    pub id: u8,
    pub ip: String,
    pub name: String,
    pub user_limit: i16,
}

/// The news shown to clients.
pub struct NewsConfig {
    pub title: String,
    pub message: String,
}

/// A patch file and the client version it brings.
pub struct PatchConfig {
    pub filename: String,
    pub version: i16,
}

/// How to reach the account database.
pub struct DatabaseConfig {
    pub host: String,
    pub port: u16,
    pub username: String,
    pub password: String,
    pub database: String,
}

/// What the request handler answers from: the configuration and a snapshot
/// of the game servers' state.
pub struct HandlerContext {
    pub last_version: i16,
    pub servers: Vec<ServerState>,
    pub news_title: String,
    pub news_message: String,
    pub ftp_url: String,
    pub ftp_path: String,
    pub patches: Vec<PatchEntry>,
}

/// A game server and how many users it has.
#[derive(Clone, Debug)]
pub struct ServerState {
    pub id: u8,
    pub ip: String,
    pub name: String,
    pub user_count: i16,
    pub user_limit: i16,
}

/// A patch file and the client version it brings.
#[derive(Clone, Debug)]
pub struct PatchEntry {
    pub filename: String,
    pub version: i16,
}

/// The patch list of the handler, taken from the configured patches.
pub fn patch_entries(patches: &Vec<PatchConfig>) -> (r: Vec<PatchEntry>)
    ensures
        r@.len() == patches@.len(),
        forall|i: int|
            0 <= i < r@.len() ==> {
                &&& #[trigger] r@[i].filename@ == patches@[i].filename@
                &&& r@[i].version == patches@[i].version
            },
{
    let mut out: Vec<PatchEntry> = Vec::new();
    let n: usize = patches.len();
    let mut i: usize = 0;
    while i < n
        invariant
            n == patches@.len(),
            i <= n,
            out@.len() == i,
            forall|k: int|
                0 <= k < i ==> {
                    &&& #[trigger] out@[k].filename@ == patches@[k].filename@
                    &&& out@[k].version == patches@[k].version
                },
        decreases n - i,
    {
        let p: &PatchConfig = &patches[i];
        out.push(PatchEntry { filename: p.filename.clone(), version: p.version });
        i += 1;
    }
    out
}

impl HandlerContext {
    /// The handler's context for a connection: the configured version,
    /// news, download location and patches, and the given snapshot of the
    /// servers.
    pub fn from_config(config: &Config, servers: Vec<ServerState>) -> (r: HandlerContext)
        ensures
            r.last_version == config.general.last_version,
            r.servers@ == servers@,
            r.news_title@ == config.news.title@,
            r.news_message@ == config.news.message@,
            r.ftp_url@ == config.download.ftp_url@,
            r.ftp_path@ == config.download.ftp_path@,
            r.patches@.len() == config.patches@.len(),
            forall|i: int|
                0 <= i < r.patches@.len() ==> {
                    &&& #[trigger] r.patches@[i].filename@ == config.patches@[i].filename@
                    &&& r.patches@[i].version == config.patches@[i].version
                },
    {
        HandlerContext {
            last_version: config.general.last_version,
            servers,
            news_title: config.news.title.clone(),
            news_message: config.news.message.clone(),
            ftp_url: config.download.ftp_url.clone(),
            ftp_path: config.download.ftp_path.clone(),
            patches: patch_entries(&config.patches),
        }
    }
}

} // verus!
