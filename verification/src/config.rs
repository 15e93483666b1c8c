use vstd::prelude::*;
use vstd::string::StringExecFns;

verus! {

/// Run-wide settings: which model to talk to, where, with what system
/// prompt, and how input lines are grouped into turns. Supplied once at
/// startup and read-only afterwards.
#[derive(Debug, Clone)]
pub struct Config {
    pub stream: bool,
    pub prompt: String,
    pub buffer_time: u64,
    pub url: String,
    pub model: String,
    pub presets: Vec<String>,
    pub debug: bool,
}

/// The built-in system prompt, also the sentinel a command line must differ
/// from before it overrides a configuration file.
pub open spec fn default_prompt() -> Seq<char> {
    "Generate a one line summary of the following text."@
}

/// The built-in endpoint base URL.
pub open spec fn default_url() -> Seq<char> {
    "http://localhost:11434"@
}

/// The model-name sentinel a command line must differ from before it
/// overrides a configuration file.
pub open spec fn default_model_sentinel() -> Seq<char> {
    "llama3"@
}

impl Default for Config {
    fn default() -> (c: Config)
        ensures
            !c.stream,
            c.prompt@ == default_prompt(),
            c.buffer_time == 1,
            c.url@ == default_url(),
            c.model@ == "llama3.2"@,
            c.presets@.len() == 1,
            c.presets@[0]@ == default_prompt(),
            !c.debug,
    {
        let prompt = String::from_str("Generate a one line summary of the following text.");
        let preset = String::from_str("Generate a one line summary of the following text.");
        let mut presets: Vec<String> = Vec::new();
        presets.push(preset);
        Config {
            stream: false,
            prompt,
            buffer_time: 1,
            url: String::from_str("http://localhost:11434"),
            model: String::from_str("llama3.2"),
            presets,
            debug: false,
        }
    }
}

/// Settings as they arrive from the command line, before they are folded
/// into a configuration loaded from a file.
pub struct CliOverrides {
    pub stream: bool,
    pub prompt: String,
    pub buffer_time: u64,
    pub url: String,
    pub model: String,
    pub debug: bool,
}

/// Folds command-line settings into a configuration loaded from a file:
/// the stream and debug flags always win, while prompt, buffer time, URL
/// and model win only when they differ from their built-in sentinels.
pub fn apply_cli_overrides(file: Config, cli: CliOverrides) -> (c: Config)
    ensures
        c.stream == cli.stream,
        c.debug == cli.debug,
        c.prompt@ == (if cli.prompt@ == default_prompt() {
            file.prompt@
        } else {
            cli.prompt@
        }),
        c.buffer_time == (if cli.buffer_time == 1 {
            file.buffer_time
        } else {
            cli.buffer_time
        }),
        c.url@ == (if cli.url@ == default_url() {
            file.url@
        } else {
            cli.url@
        }),
        c.model@ == (if cli.model@ == default_model_sentinel() {
            file.model@
        } else {
            cli.model@
        }),
        c.presets@ == file.presets@,
{
    let mut c = file;
    c.stream = cli.stream;
    c.debug = cli.debug;
    let sentinel_prompt = String::from_str(
        "Generate a one line summary of the following text.",
    );
    if !(cli.prompt == sentinel_prompt) {
        c.prompt = cli.prompt;
    }
    if cli.buffer_time != 1 {
        c.buffer_time = cli.buffer_time;
    }
    let sentinel_url = String::from_str("http://localhost:11434");
    if !(cli.url == sentinel_url) {
        c.url = cli.url;
    }
    let sentinel_model = String::from_str("llama3");
    if !(cli.model == sentinel_model) {
        c.model = cli.model;
    }
    c
}

} // verus!
