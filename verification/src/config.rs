//! The process configuration and the client configurations derived from it.
use vstd::prelude::*;
use vstd::string::*;
use crate::metadata::{opt_string_view, opt_trimmed};
use crate::snapshot::{RuntimeConfigClientConfig, SnapshotSource};
use crate::text::{blank, is_blank, trim, trim_str};
use crate::upstream_runtime::{CodexConfig, OpenAiConfig, UpstreamRuntimeConfig};

verus! {

/// Settings of the process, as read from its arguments and environment.
#[derive(Debug, Clone)]
pub struct Config {
    pub bind_addr: String,
    pub log_level: String,
    pub snapshot_file: Option<String>,
    pub snapshot_url: Option<String>,
    pub snapshot_poll_seconds: u64,
    pub openai_base_url: String,
    pub openai_api_key: Option<String>,
    pub codex_base_url: String,
    pub codex_token: Option<String>,
    pub codex_user_agent: String,
    pub codex_openai_beta: Option<String>,
}

pub open spec fn both_sources_message() -> Seq<char> {
    "snapshot source must use either --snapshot-file or --snapshot-url, not both"@
}

pub open spec fn no_source_message() -> Seq<char> {
    "snapshot source is required; set --snapshot-file or --snapshot-url"@
}

/// Whether an optional secret is present and not blank.
pub open spec fn given(o: Option<String>) -> bool {
    o matches Some(k) && !blank(k@)
}

impl Config {
    /// Where the snapshot comes from: exactly one of a file and a URL must be set. The polling
    /// period is at least one second.
    pub fn snapshot_client_config(&self) -> (r: Result<RuntimeConfigClientConfig, String>)
        ensures
            match (self.snapshot_file, self.snapshot_url) {
                (Some(path), None) => r matches Ok(c) && c.source == (SnapshotSource::File {
                    path,
                }),
                (None, Some(url)) => r matches Ok(c) && c.source == (SnapshotSource::Http {
                    url,
                    bearer_token: None,
                }),
                (Some(_), Some(_)) => r matches Err(e) && e@ == both_sources_message(),
                (None, None) => r matches Err(e) && e@ == no_source_message(),
            },
            r matches Ok(c) ==> c.poll_interval_seconds == if self.snapshot_poll_seconds == 0 {
                1
            } else {
                self.snapshot_poll_seconds
            },
    {
        let source = match (&self.snapshot_file, &self.snapshot_url) {
            (Some(path), None) => SnapshotSource::File { path: path.clone() },
            (None, Some(url)) => SnapshotSource::Http { url: url.clone(), bearer_token: None },
            (Some(_), Some(_)) => {
                return Err(
                    String::from_str(
                        "snapshot source must use either --snapshot-file or --snapshot-url, not both",
                    ),
                );
            },
            (None, None) => {
                return Err(
                    String::from_str(
                        "snapshot source is required; set --snapshot-file or --snapshot-url",
                    ),
                );
            },
        };
        let poll = if self.snapshot_poll_seconds == 0 {
            1
        } else {
            self.snapshot_poll_seconds
        };
        Ok(RuntimeConfigClientConfig { source, poll_interval_seconds: poll })
    }

    /// The upstreams: OpenAI when an API key is given, Codex when a token is given, each with
    /// its settings trimmed; a blank beta header is left out.
    pub fn upstream_runtime_config(&self) -> (r: UpstreamRuntimeConfig)
        ensures
            given(self.openai_api_key) ==> (r.openai matches Some(o) && o.base_url@ == trim(
                self.openai_base_url@,
            ) && o.api_key@ == trim(self.openai_api_key->0@)),
            !given(self.openai_api_key) ==> r.openai is None,
            given(self.codex_token) ==> (r.codex matches Some(c) && c.base_url@ == trim(
                self.codex_base_url@,
            ) && c.token@ == trim(self.codex_token->0@) && c.user_agent@ == trim(
                self.codex_user_agent@,
            ) && opt_string_view(c.openai_beta) == opt_trimmed(
                opt_string_view(self.codex_openai_beta),
            )),
            !given(self.codex_token) ==> r.codex is None,
    {
        let openai = match &self.openai_api_key {
            Some(k) => if is_blank(k.as_str()) {
                None
            } else {
                Some(
                    OpenAiConfig {
                        base_url: trim_str(self.openai_base_url.as_str()),
                        api_key: trim_str(k.as_str()),
                    },
                )
            },
            None => None,
        };
        let codex = match &self.codex_token {
            Some(t) => if is_blank(t.as_str()) {
                None
            } else {
                let beta = match &self.codex_openai_beta {
                    Some(b) => {
                        let v = trim_str(b.as_str());
                        if v.as_str().unicode_len() == 0 {
                            None
                        } else {
                            Some(v)
                        }
                    },
                    None => None,
                };
                Some(
                    CodexConfig {
                        base_url: trim_str(self.codex_base_url.as_str()),
                        token: trim_str(t.as_str()),
                        user_agent: trim_str(self.codex_user_agent.as_str()),
                        openai_beta: beta,
                    },
                )
            },
            None => None,
        };
        UpstreamRuntimeConfig { openai, codex }
    }
}

} // verus!
