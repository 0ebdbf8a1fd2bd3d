//! The configuration.
use crate::error::Error;
use crate::path_map::{join_path, joined_path};
use crate::text::{
    after_prefix, lemma_strip_trailing_end, opt_slice, rest_after, same, strip_trailing,
    without_trailing,
};
use vstd::hash_map::StringHashMap;
use vstd::prelude::*;
use vstd::string::*;

verus! {

pub struct Config {
    pub server_url: String,
    pub api_key: String,
    /// Server paths and local paths; the first entry that matches wins.
    pub path_map: Vec<PathMapEntry>,
    pub timeout_secs: u64,
    pub llm: Option<LlmConfig>,
    /// The people that are named to the language model.
    pub people: People,
}

/// A language model behind an OpenAI-compatible endpoint.
#[derive(Debug, Clone)]
pub struct LlmConfig {
    pub base_url: String,
    pub api_key: String,
    pub model: String,
    pub vision_model: Option<String>,
    pub timeout_secs: u64,
}

#[derive(Debug, Clone)]
pub struct PathMapEntry {
    pub server: String,
    pub local: String,
}

/// People by name, each with roles.
pub struct People {
    roles: StringHashMap<Vec<String>>,
}

impl View for People {
    type V = Map<Seq<char>, Vec<String>>;

    closed spec fn view(&self) -> Map<Seq<char>, Vec<String>> {
        self.roles@
    }
}

impl People {
    pub fn new() -> (r: People)
        ensures
            r@ == Map::<Seq<char>, Vec<String>>::empty(),
    {
        People { roles: StringHashMap::new() }
    }

    pub fn insert(&mut self, name: String, roles: Vec<String>)
        ensures
            final(self)@ == old(self)@.insert(name@, roles),
    {
        self.roles.insert(name, roles);
    }

    pub fn is_empty(&self) -> (r: bool)
        ensures
            r == self@.is_empty(),
    {
        self.roles.is_empty()
    }

    pub fn get(&self, name: &str) -> (r: Option<&Vec<String>>)
        ensures
            match r {
                Some(roles) => self@.contains_key(name@) && *roles == self@[name@],
                None => !self@.contains_key(name@),
            },
    {
        self.roles.get(name)
    }
}

// ---- home directories -------------------------------------------------------

/// A leading `~` stands for the home directory, where there is one.
pub open spec fn tilde_expanded(path: Seq<char>, home: Option<Seq<char>>) -> Seq<char> {
    if home is None {
        path
    } else if after_prefix(path, "~/"@) is Some {
        join_path(home->0, after_prefix(path, "~/"@)->0)
    } else if path == "~"@ {
        home->0
    } else {
        path
    }
}

pub fn expand_tilde(path: &str, home: Option<&str>) -> (r: String)
    ensures
        r@ == tilde_expanded(path@, opt_slice(home)),
{
    match home {
        None => path.to_owned(),
        Some(home) => {
            if let Some(rest) = rest_after(path, "~/") {
                joined_path(home, rest)
            } else if same(path, "~") {
                home.to_owned()
            } else {
                path.to_owned()
            }
        },
    }
}

// ---- reading a configuration ------------------------------------------------

/// What is wrong with the configuration of the language model, if anything.
pub open spec fn llm_refusal(llm: LlmConfig) -> Option<Error> {
    if strip_trailing(llm.base_url@, '/').len() == 0 {
        Some(Error::LlmBaseUrlEmpty)
    } else if llm.api_key@.len() == 0 {
        Some(Error::LlmApiKeyEmpty)
    } else if llm.model@.len() == 0 {
        Some(Error::LlmModelEmpty)
    } else if llm.vision_model is Some && llm.vision_model->0@.len() == 0 {
        Some(Error::VisionModelEmpty)
    } else {
        None
    }
}

/// What is wrong with the configuration, if anything.
pub open spec fn config_refusal(cfg: Config) -> Option<Error> {
    if strip_trailing(cfg.server_url@, '/').len() == 0 {
        Some(Error::ServerUrlEmpty)
    } else if cfg.api_key@.len() == 0 {
        Some(Error::ApiKeyEmpty)
    } else {
        match cfg.llm {
            Some(llm) => llm_refusal(llm),
            None => None,
        }
    }
}

/// An entry with the home directory filled in and without slashes at the ends.
pub open spec fn entry_normalized(
    entry: PathMapEntry,
    home: Option<Seq<char>>,
    r: PathMapEntry,
) -> bool {
    &&& r.server@ == strip_trailing(entry.server@, '/')
    &&& r.local@ == strip_trailing(tilde_expanded(entry.local@, home), '/')
}

/// The configuration as it is used: no URL and no path ends in a slash, and
/// `~` is filled in.
pub open spec fn config_normalized(cfg: Config, home: Option<Seq<char>>, r: Config) -> bool {
    &&& r.server_url@ == strip_trailing(cfg.server_url@, '/')
    &&& r.api_key@ == cfg.api_key@
    &&& r.path_map@.len() == cfg.path_map@.len()
    &&& forall|i: int|
        0 <= i < r.path_map@.len() ==> entry_normalized(
            cfg.path_map@[i],
            home,
            #[trigger] r.path_map@[i],
        )
    &&& r.timeout_secs == cfg.timeout_secs
    &&& r.people == cfg.people
    &&& match (cfg.llm, r.llm) {
        (Some(a), Some(b)) => {
            &&& b.base_url@ == strip_trailing(a.base_url@, '/')
            &&& b.api_key == a.api_key
            &&& b.model == a.model
            &&& b.vision_model == a.vision_model
            &&& b.timeout_secs == a.timeout_secs
        },
        (None, None) => true,
        _ => false,
    }
}

impl Config {
    /// Checks a configuration that was read, and brings it into the form in
    /// which it is used.
    pub fn normalize(self, home: Option<&str>) -> (r: Result<Config, Error>)
        ensures
            match r {
                Ok(cfg) => config_refusal(self) is None && config_normalized(
                    self,
                    opt_slice(home),
                    cfg,
                ),
                Err(e) => config_refusal(self) == Some(e),
            },
    {
        let server_url = without_trailing(self.server_url.as_str(), '/').to_owned();
        if server_url.as_str().is_empty() {
            return Err(Error::ServerUrlEmpty);
        }
        if self.api_key.as_str().is_empty() {
            return Err(Error::ApiKeyEmpty);
        }
        let llm = match self.llm {
            None => None,
            Some(llm) => {
                let base_url = without_trailing(llm.base_url.as_str(), '/').to_owned();
                if base_url.as_str().is_empty() {
                    return Err(Error::LlmBaseUrlEmpty);
                }
                if llm.api_key.as_str().is_empty() {
                    return Err(Error::LlmApiKeyEmpty);
                }
                if llm.model.as_str().is_empty() {
                    return Err(Error::LlmModelEmpty);
                }
                if let Some(vision_model) = &llm.vision_model {
                    if vision_model.as_str().is_empty() {
                        return Err(Error::VisionModelEmpty);
                    }
                }
                Some(
                    LlmConfig {
                        base_url,
                        api_key: llm.api_key,
                        model: llm.model,
                        vision_model: llm.vision_model,
                        timeout_secs: llm.timeout_secs,
                    },
                )
            },
        };
        let path_map = normalize_entries(&self.path_map, home);
        Ok(
            Config {
                server_url,
                api_key: self.api_key,
                path_map,
                timeout_secs: self.timeout_secs,
                llm,
                people: self.people,
            },
        )
    }
}

fn normalize_entries(entries: &Vec<PathMapEntry>, home: Option<&str>) -> (r: Vec<PathMapEntry>)
    ensures
        r.len() == entries.len(),
        forall|i: int|
            0 <= i < r.len() ==> entry_normalized(entries@[i], opt_slice(home), #[trigger] r@[i]),
{
    let mut out: Vec<PathMapEntry> = Vec::new();
    let mut i: usize = 0;
    while i < entries.len()
        invariant
            i <= entries.len(),
            out.len() == i,
            forall|j: int|
                0 <= j < i ==> entry_normalized(
                    entries@[j],
                    opt_slice(home),
                    #[trigger] out@[j],
                ),
        decreases entries.len() - i,
    {
        let local = expand_tilde(entries[i].local.as_str(), home);
        out.push(
            PathMapEntry {
                server: without_trailing(entries[i].server.as_str(), '/').to_owned(),
                local: without_trailing(local.as_str(), '/').to_owned(),
            },
        );
        i += 1;
    }
    out
}

/// In a configuration that is used, no URL and no mapped path ends in a slash.
pub proof fn law_no_slash_at_the_end(cfg: Config, home: Option<Seq<char>>, r: Config, i: int)
    requires
        config_refusal(cfg) is None,
        config_normalized(cfg, home, r),
        0 <= i < r.path_map@.len(),
    ensures
        r.server_url@.len() > 0 && r.server_url@.last() != '/',
        r.path_map@[i].server@.len() > 0 ==> r.path_map@[i].server@.last() != '/',
        r.path_map@[i].local@.len() > 0 ==> r.path_map@[i].local@.last() != '/',
{
    assert(entry_normalized(cfg.path_map@[i], home, r.path_map@[i]));
    lemma_strip_trailing_end(cfg.server_url@, '/');
    lemma_strip_trailing_end(cfg.path_map@[i].server@, '/');
    lemma_strip_trailing_end(tilde_expanded(cfg.path_map@[i].local@, home), '/');
}

/// A path below the home directory begins with a tilde and a slash; any other path, and any
/// path where no home directory is known, stays as it is.
pub proof fn law_tilde_is_the_home_directory(rel: Seq<char>, home: Seq<char>, path: Seq<char>)
    requires
        rel.len() > 0,
        rel[0] != '/',
        home.len() > 0,
        home.last() != '/',
        path.len() == 0 || path[0] != '~',
    ensures
        tilde_expanded("~/"@ + rel, Some(home)) == home + "/"@ + rel,
        tilde_expanded("~"@, Some(home)) == home,
        tilde_expanded(path, Some(home)) == path,
        tilde_expanded(path, None) == path,
        tilde_expanded("~/"@ + rel, None) == "~/"@ + rel,
{
    reveal_strlit("~/");
    reveal_strlit("~");
    reveal_strlit("/");
    let tilde = "~/"@ + rel;
    assert("~/"@ =~= tilde.subrange(0, 2));
    assert(tilde.skip(2) =~= rel);
    assert(home + seq!['/'] + rel =~= home + "/"@ + rel);
    assert(!"~/"@.is_prefix_of("~"@));
    assert(!"~/"@.is_prefix_of(path)) by {
        assert("~/"@[0] == '~');
    }
    assert(path != "~"@) by {
        assert("~"@[0] == '~');
    }
}

/// A configuration is accepted exactly where the server has an address and a key and, if a
/// language model is configured, that has an address, a key and a name, and no empty name of
/// a vision model.
pub proof fn law_accepted_configurations(cfg: Config)
    ensures
        config_refusal(cfg) is None <==> strip_trailing(cfg.server_url@, '/').len() > 0
            && cfg.api_key@.len() > 0 && (cfg.llm matches Some(llm) ==> strip_trailing(
            llm.base_url@,
            '/',
        ).len() > 0 && llm.api_key@.len() > 0 && llm.model@.len() > 0 && (
        llm.vision_model matches Some(v) ==> v@.len() > 0)),
        strip_trailing(cfg.server_url@, '/').len() == 0 ==> config_refusal(cfg) == Some(
            Error::ServerUrlEmpty,
        ),
{
}

/// Normalizing changes nothing but slashes at the ends and tildes: keys, models, limits,
/// people and the order of the mappings stay.
pub proof fn law_normalizing_keeps_the_rest(
    cfg: Config,
    home: Option<Seq<char>>,
    r: Config,
    i: int,
)
    requires
        config_normalized(cfg, home, r),
    ensures
        r.api_key@ == cfg.api_key@,
        r.timeout_secs == cfg.timeout_secs,
        r.people == cfg.people,
        cfg.server_url@.len() > 0 && cfg.server_url@.last() != '/' ==> r.server_url@
            == cfg.server_url@,
        r.path_map@.len() == cfg.path_map@.len(),
        0 <= i < cfg.path_map@.len() && cfg.path_map@[i].server@.len() > 0
            && cfg.path_map@[i].server@.last() != '/' ==> r.path_map@[i].server@
            == cfg.path_map@[i].server@,
        0 <= i < cfg.path_map@.len() && cfg.path_map@[i].local@.len() > 0
            && cfg.path_map@[i].local@.last() != '/' && cfg.path_map@[i].local@[0] != '~'
            ==> r.path_map@[i].local@ == cfg.path_map@[i].local@,
        cfg.llm is Some <==> r.llm is Some,
        cfg.llm matches Some(a) ==> r.llm->0.api_key == a.api_key && r.llm->0.model == a.model
            && r.llm->0.vision_model == a.vision_model && r.llm->0.timeout_secs == a.timeout_secs
            && (a.base_url@.len() > 0 && a.base_url@.last() != '/' ==> r.llm->0.base_url@
            == a.base_url@),
{
    if 0 <= i < cfg.path_map@.len() {
        assert(entry_normalized(cfg.path_map@[i], home, r.path_map@[i]));
        let local = cfg.path_map@[i].local@;
        reveal_strlit("~/");
        reveal_strlit("~");
        if local.len() > 0 && local[0] != '~' {
            assert(!"~/"@.is_prefix_of(local)) by {
                assert("~/"@[0] == '~');
            }
            assert(local != "~"@) by {
                assert("~"@[0] == '~');
            }
        }
    }
}

/// A configuration that is refused is not used, and one that is accepted is normalized.
pub proof fn law_configurations_are_checked(cfg: Config, home: Option<&str>, r: Result<Config, Error>)
    requires
        call_ensures(Config::normalize, (cfg, home), r),
    ensures
        r is Ok <==> config_refusal(cfg) is None,
        r matches Ok(used) ==> config_normalized(cfg, opt_slice(home), used),
        r matches Err(e) ==> config_refusal(cfg) == Some(e),
{
}

} // verus!
