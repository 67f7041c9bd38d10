//! Process-wide configuration of the mirror: which extensions are offered
//! as downloads, which names a listing hides, and the serving options. The
//! values here are plain data; reading a configuration file happens outside
//! the core, which only consumes the resulting struct.

use vstd::prelude::*;

verus! {

/// The mirror's configuration.
pub struct Config {
    pub extensions: Vec<String>,
    pub hidden_files: Vec<String>,
    pub enable_login: bool,
    pub enable_api: bool,
    pub enable_marmak_link: bool,
    pub enable_direct: bool,
    pub instance_info: String,
    pub x_sendfile_header: String,
    pub x_sendfile_prefix: String,
    pub standalone: bool,
    pub fallback_root_domain: String,
    pub enable_file_db: bool,
    pub enable_zip_downloads: bool,
    pub max_age: u64,
}

/// The extensions offered as downloads when nothing else is configured.
pub open spec fn default_extensions() -> Seq<Seq<char>> {
    seq![
        "exe"@,
        "cab"@,
        "appx"@,
        "xap"@,
        "appxbundle"@,
        "zip"@,
        "7z"@,
        "apk"@,
        "rar"@,
    ]
}

/// The names a listing hides when nothing else is configured; the private
/// namespace and the marker files are always among them.
pub open spec fn default_hidden_files() -> Seq<Seq<char>> {
    seq![
        "static"@,
        "uploads"@,
        "private"@,
        "robots.txt"@,
        "favicon.ico"@,
        "top"@,
        "RESTRICTED"@,
        "metadata"@,
        "HIDDEN"@,
    ]
}

impl Default for Config {
    /// The built-in configuration, used when no configuration file is
    /// readable.
    fn default() -> (r: Config)
        ensures
            r.extensions.deep_view() =~~= default_extensions(),
            r.hidden_files.deep_view() =~~= default_hidden_files(),
            !r.enable_login,
            r.enable_api,
            r.enable_marmak_link,
            !r.enable_direct,
            r.instance_info@ == "My Mirror Instance!"@,
            r.x_sendfile_header@ == "X-Send-File"@,
            r.x_sendfile_prefix@ == Seq::<char>::empty(),
            r.standalone,
            r.fallback_root_domain@ == "marmak.net.pl"@,
            !r.enable_file_db,
            !r.enable_zip_downloads,
            r.max_age == 86400,
    {
        let mut extensions: Vec<String> = Vec::new();
        extensions.push(String::from_str("exe"));
        extensions.push(String::from_str("cab"));
        extensions.push(String::from_str("appx"));
        extensions.push(String::from_str("xap"));
        extensions.push(String::from_str("appxbundle"));
        extensions.push(String::from_str("zip"));
        extensions.push(String::from_str("7z"));
        extensions.push(String::from_str("apk"));
        extensions.push(String::from_str("rar"));
        let mut hidden_files: Vec<String> = Vec::new();
        hidden_files.push(String::from_str("static"));
        hidden_files.push(String::from_str("uploads"));
        hidden_files.push(String::from_str("private"));
        hidden_files.push(String::from_str("robots.txt"));
        hidden_files.push(String::from_str("favicon.ico"));
        hidden_files.push(String::from_str("top"));
        hidden_files.push(String::from_str("RESTRICTED"));
        hidden_files.push(String::from_str("metadata"));
        hidden_files.push(String::from_str("HIDDEN"));
        proof {
            assert(extensions.deep_view() =~~= default_extensions());
            assert(hidden_files.deep_view() =~~= default_hidden_files());
        }
        Config {
            extensions,
            hidden_files,
            enable_login: false,
            enable_api: true,
            enable_marmak_link: true,
            enable_direct: false,
            instance_info: String::from_str("My Mirror Instance!"),
            x_sendfile_header: String::from_str("X-Send-File"),
            x_sendfile_prefix: String::new(),
            standalone: true,
            fallback_root_domain: String::from_str("marmak.net.pl"),
            enable_file_db: false,
            enable_zip_downloads: false,
            max_age: 86400,
        }
    }
}

} // verus!
