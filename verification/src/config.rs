use vstd::prelude::*;
use vstd::string::StringExecFns;

verus! {

/// Connection settings for one judging-service provider. Loaded and
/// validated outside the core; the core only reads it.
#[derive(Debug)]
pub struct EndpointConfig {
    pub enabled: bool,
    pub token: String,
    pub endpoint: String,
    /// Tokens granted per minute by the rate limiter, if limited at all.
    pub rate_limit: Option<u32>,
}

/// Process-wide configuration: where to listen, what to serve, and one
/// endpoint per supported judging-service provider.
#[derive(Debug)]
pub struct Config {
    pub address: String,
    pub serve_dir: String,
    pub openai: EndpointConfig,
    pub google_gemini: EndpointConfig,
}

impl Default for EndpointConfig {
    /// A disabled provider with an empty token and endpoint, limited to
    /// zero calls.
    fn default() -> (r: Self)
        ensures
            !r.enabled,
            r.token@ == Seq::<char>::empty(),
            r.endpoint@ == Seq::<char>::empty(),
            r.rate_limit == Some(0u32),
    {
        EndpointConfig {
            enabled: false,
            token: String::new(),
            endpoint: String::new(),
            rate_limit: Some(0),
        }
    }
}

impl Default for Config {
    /// Listen on every interface on port 3000, serve the bundled client,
    /// and leave both providers disabled.
    fn default() -> (r: Self)
        ensures
            r.address@ == "0.0.0.0:3000"@,
            r.serve_dir@ == "argue-react/dist"@,
            !r.openai.enabled,
            r.openai.token@ == Seq::<char>::empty(),
            r.openai.endpoint@ == Seq::<char>::empty(),
            r.openai.rate_limit == Some(0u32),
            !r.google_gemini.enabled,
            r.google_gemini.token@ == Seq::<char>::empty(),
            r.google_gemini.endpoint@ == Seq::<char>::empty(),
            r.google_gemini.rate_limit == Some(0u32),
    {
        Config {
            address: String::from_str("0.0.0.0:3000"),
            serve_dir: String::from_str("argue-react/dist"),
            openai: EndpointConfig::default(),
            google_gemini: EndpointConfig::default(),
        }
    }
}

} // verus!
