//! Configuration model plus the merge of defaults, TOML file and flags.
//!
//! Every flag and every key of the file is optional so the sources can be
//! layered with clear precedence: start from [`Config::default`], overlay a
//! file if given, then overlay any flags the user actually passed.

use crate::audio::{AudioFormat, FormatError};
use crate::buffer::MAX_BUFFERED;
use crate::cli::Cli;
use crate::text::same_text;
use vstd::prelude::*;
use vstd::string::*;

verus! {

/// Where PCM comes from.
pub enum InputSource {
    /// Standard input (one-shot; EOF ends the program).
    Stdin,
    /// Named pipe at `path` (create with `mkfifo`).
    Fifo { path: String },
    /// Unix domain socket at `path`.
    Unix { path: String },
    /// TCP listener at `bind` (e.g. `0.0.0.0:4711`).
    Tcp { bind: String },
}

/// Where PCM comes from.
pub enum SourceModel {
    Stdin,
    Fifo(Seq<char>),
    Unix(Seq<char>),
    Tcp(Seq<char>),
}

impl View for InputSource {
    type V = SourceModel;

    open spec fn view(&self) -> SourceModel {
        match self {
            InputSource::Stdin => SourceModel::Stdin,
            InputSource::Fifo { path } => SourceModel::Fifo(path@),
            InputSource::Unix { path } => SourceModel::Unix(path@),
            InputSource::Tcp { bind } => SourceModel::Tcp(bind@),
        }
    }
}

/// Why there is no configuration.
pub enum ConfigError {
    /// The `fifo` source lacks its path.
    FifoWithoutPath,
    /// The `unix` source lacks its path.
    UnixWithoutPath,
    /// There is no such source.
    UnknownSource(String),
    /// The audio format is not supported.
    Format(FormatError),
}

/// Why there is no configuration.
pub enum ErrorModel {
    FifoWithoutPath,
    UnixWithoutPath,
    UnknownSource(Seq<char>),
    Format(FormatError),
}

impl View for ConfigError {
    type V = ErrorModel;

    open spec fn view(&self) -> ErrorModel {
        match self {
            ConfigError::FifoWithoutPath => ErrorModel::FifoWithoutPath,
            ConfigError::UnixWithoutPath => ErrorModel::UnixWithoutPath,
            ConfigError::UnknownSource(source) => ErrorModel::UnknownSource(source@),
            ConfigError::Format(e) => ErrorModel::Format(*e),
        }
    }
}

impl ErrorModel {
    /// What is wrong, in words.
    pub open spec fn text(self) -> Seq<char> {
        match self {
            ErrorModel::FifoWithoutPath => "input source 'fifo' requires a path (--path)"@,
            ErrorModel::UnixWithoutPath => "input source 'unix' requires a path (--path)"@,
            ErrorModel::UnknownSource(source) => "unknown input source '"@ + source
                + "' (expected stdin, fifo, unix or tcp)"@,
            ErrorModel::Format(e) => e.text(),
        }
    }
}

impl ConfigError {
    /// What is wrong, in words.
    pub fn message(&self) -> (message: String)
        ensures
            message@ == self@.text(),
    {
        match self {
            ConfigError::FifoWithoutPath => {
                "input source 'fifo' requires a path (--path)".to_owned()
            },
            ConfigError::UnixWithoutPath => {
                "input source 'unix' requires a path (--path)".to_owned()
            },
            ConfigError::UnknownSource(source) => {
                let mut out: String = "unknown input source '".to_owned();
                out.append(source.as_str());
                out.append("' (expected stdin, fifo, unix or tcp)");
                out
            },
            ConfigError::Format(e) => e.message(),
        }
    }
}

// ---------------------------------------------------------------------------
// Sources
// ---------------------------------------------------------------------------

/// The view of a text that may be missing.
pub open spec fn text_view(text: Option<String>) -> Option<Seq<char>> {
    match text {
        Some(t) => Some(t@),
        None => None,
    }
}

/// The view of a text that may be missing.
pub open spec fn str_view(text: Option<&str>) -> Option<Seq<char>> {
    match text {
        Some(t) => Some(t@),
        None => None,
    }
}

/// The source that a keyword plus its path/bind operands stand for.
pub open spec fn source_of(
    keyword: Seq<char>,
    path: Option<Seq<char>>,
    bind: Option<Seq<char>>,
) -> Result<SourceModel, ErrorModel> {
    if keyword == "stdin"@ || keyword == "-"@ {
        Ok(SourceModel::Stdin)
    } else if keyword == "fifo"@ {
        match path {
            Some(p) => Ok(SourceModel::Fifo(p)),
            None => Err(ErrorModel::FifoWithoutPath),
        }
    } else if keyword == "unix"@ {
        match path {
            Some(p) => Ok(SourceModel::Unix(p)),
            None => Err(ErrorModel::UnixWithoutPath),
        }
    } else if keyword == "tcp"@ {
        Ok(
            SourceModel::Tcp(
                match bind {
                    Some(b) => b,
                    None => "0.0.0.0:4711"@,
                },
            ),
        )
    } else {
        Err(ErrorModel::UnknownSource(keyword))
    }
}

/// The view of a source or of what is wrong with it.
pub open spec fn source_view(source: Result<InputSource, ConfigError>) -> Result<
    SourceModel,
    ErrorModel,
> {
    match source {
        Ok(s) => Ok(s@),
        Err(e) => Err(e@),
    }
}

/// Turn a source keyword plus its path/bind operands into an [`InputSource`].
pub fn build_source(source: &str, path: Option<&str>, bind: Option<&str>) -> (built: Result<
    InputSource,
    ConfigError,
>)
    ensures
        source_view(built) == source_of(source@, str_view(path), str_view(bind)),
{
    if same_text(source, "stdin") || same_text(source, "-") {
        Ok(InputSource::Stdin)
    } else if same_text(source, "fifo") {
        match path {
            Some(p) => Ok(InputSource::Fifo { path: p.to_owned() }),
            None => Err(ConfigError::FifoWithoutPath),
        }
    } else if same_text(source, "unix") {
        match path {
            Some(p) => Ok(InputSource::Unix { path: p.to_owned() }),
            None => Err(ConfigError::UnixWithoutPath),
        }
    } else if same_text(source, "tcp") {
        match bind {
            Some(b) => Ok(InputSource::Tcp { bind: b.to_owned() }),
            None => Ok(InputSource::Tcp { bind: "0.0.0.0:4711".to_owned() }),
        }
    } else {
        Err(ConfigError::UnknownSource(source.to_owned()))
    }
}

/// A human-readable one-liner describing where PCM will come from.
pub open spec fn description(source: SourceModel) -> Seq<char> {
    match source {
        SourceModel::Stdin => "stdin"@,
        SourceModel::Fifo(path) => "fifo "@ + path,
        SourceModel::Unix(path) => "unix "@ + path,
        SourceModel::Tcp(bind) => "tcp "@ + bind,
    }
}

/// Human-readable one-liner describing where PCM will come from.
pub fn describe_source(source: &InputSource) -> (line: String)
    ensures
        line@ == description(source@),
{
    match source {
        InputSource::Stdin => "stdin".to_owned(),
        InputSource::Fifo { path } => {
            let mut out: String = "fifo ".to_owned();
            out.append(path.as_str());
            out
        },
        InputSource::Unix { path } => {
            let mut out: String = "unix ".to_owned();
            out.append(path.as_str());
            out
        },
        InputSource::Tcp { bind } => {
            let mut out: String = "tcp ".to_owned();
            out.append(bind.as_str());
            out
        },
    }
}

// ---------------------------------------------------------------------------
// The configuration, and what is laid over it
// ---------------------------------------------------------------------------

/// Fully-resolved runtime configuration.
pub struct Config {
    pub source: InputSource,
    pub format: AudioFormat,
    pub bind_ip: String,
    pub slim_port: u16,
    pub http_port: u16,
    pub discovery: bool,
    pub sync: bool,
    pub server_name: String,
    pub buffer_bytes: usize,
}

/// A configuration.
pub struct ConfigModel {
    pub source: SourceModel,
    pub format: AudioFormat,
    pub bind_ip: Seq<char>,
    pub slim_port: u16,
    pub http_port: u16,
    pub discovery: bool,
    pub sync: bool,
    pub server_name: Seq<char>,
    pub buffer_bytes: usize,
}

impl View for Config {
    type V = ConfigModel;

    open spec fn view(&self) -> ConfigModel {
        ConfigModel {
            source: self.source@,
            format: self.format,
            bind_ip: self.bind_ip@,
            slim_port: self.slim_port,
            http_port: self.http_port,
            discovery: self.discovery,
            sync: self.sync,
            server_name: self.server_name@,
            buffer_bytes: self.buffer_bytes,
        }
    }
}

/// What a configuration file holds. Every field is optional so a partial file
/// only overrides the keys it sets.
pub struct FileConfig {
    pub input: FileInput,
    pub audio: FileAudio,
    pub server: FileServer,
}

/// The `[input]` table.
pub struct FileInput {
    /// "stdin" | "fifo" | "unix" | "tcp"
    pub source: Option<String>,
    /// Path for fifo/unix sources.
    pub path: Option<String>,
    /// Bind address for the tcp source.
    pub bind: Option<String>,
}

/// The `[audio]` table.
pub struct FileAudio {
    pub sample_rate: Option<u32>,
    pub channels: Option<u8>,
    pub bits: Option<u8>,
}

/// The `[server]` table.
pub struct FileServer {
    pub bind_ip: Option<String>,
    pub slim_port: Option<u16>,
    pub http_port: Option<u16>,
    pub discovery: Option<bool>,
    pub name: Option<String>,
    pub buffer_bytes: Option<usize>,
}

/// What a file or the flags set.
pub struct Overlay {
    pub source: Option<Seq<char>>,
    pub path: Option<Seq<char>>,
    pub bind: Option<Seq<char>>,
    pub sample_rate: Option<u32>,
    pub channels: Option<u8>,
    pub bits: Option<u8>,
    pub bind_ip: Option<Seq<char>>,
    pub slim_port: Option<u16>,
    pub http_port: Option<u16>,
    pub discovery: Option<bool>,
    pub sync: Option<bool>,
    pub name: Option<Seq<char>>,
    pub buffer_bytes: Option<usize>,
}

impl View for FileConfig {
    type V = Overlay;

    open spec fn view(&self) -> Overlay {
        Overlay {
            source: text_view(self.input.source),
            path: text_view(self.input.path),
            bind: text_view(self.input.bind),
            sample_rate: self.audio.sample_rate,
            channels: self.audio.channels,
            bits: self.audio.bits,
            bind_ip: text_view(self.server.bind_ip),
            slim_port: self.server.slim_port,
            http_port: self.server.http_port,
            discovery: self.server.discovery,
            sync: None,
            name: text_view(self.server.name),
            buffer_bytes: self.server.buffer_bytes,
        }
    }
}

impl View for Cli {
    type V = Overlay;

    open spec fn view(&self) -> Overlay {
        Overlay {
            source: text_view(self.source),
            path: text_view(self.path),
            bind: text_view(self.tcp_bind),
            sample_rate: self.sample_rate,
            channels: self.channels,
            bits: self.bits,
            bind_ip: text_view(self.bind_ip),
            slim_port: self.slim_port,
            http_port: self.http_port,
            discovery: self.discovery,
            sync: self.sync,
            name: text_view(self.name),
            buffer_bytes: self.buffer_bytes,
        }
    }
}

/// What was set, or else what there was.
pub open spec fn or_else<T>(set: Option<T>, there: T) -> T {
    match set {
        Some(t) => t,
        None => there,
    }
}

/// The built-in defaults.
pub open spec fn defaults() -> ConfigModel {
    ConfigModel {
        source: SourceModel::Stdin,
        format: AudioFormat { sample_rate: 44100, channels: 2, bits: 16 },
        bind_ip: "0.0.0.0"@,
        slim_port: 3483,
        http_port: 9000,
        discovery: true,
        sync: true,
        server_name: "squeezed"@,
        buffer_bytes: MAX_BUFFERED,
    }
}

/// What was set above, or else what was set below.
pub open spec fn or_below<T>(above: Option<T>, below: Option<T>) -> Option<T> {
    match above {
        Some(t) => Some(t),
        None => below,
    }
}

impl Overlay {
    /// What is set by this or, where this does not set it, by the one below:
    /// every setting on its own.
    pub open spec fn over(self, below: Overlay) -> Overlay {
        Overlay {
            source: or_below(self.source, below.source),
            path: or_below(self.path, below.path),
            bind: or_below(self.bind, below.bind),
            sample_rate: or_below(self.sample_rate, below.sample_rate),
            channels: or_below(self.channels, below.channels),
            bits: or_below(self.bits, below.bits),
            bind_ip: or_below(self.bind_ip, below.bind_ip),
            slim_port: or_below(self.slim_port, below.slim_port),
            http_port: or_below(self.http_port, below.http_port),
            discovery: or_below(self.discovery, below.discovery),
            sync: or_below(self.sync, below.sync),
            name: or_below(self.name, below.name),
            buffer_bytes: or_below(self.buffer_bytes, below.buffer_bytes),
        }
    }

    /// The source that the keyword, path and bind address stand for; without a
    /// keyword, the one that there was.
    pub open spec fn source_over(self, there: SourceModel) -> Result<SourceModel, ErrorModel> {
        match self.source {
            Some(keyword) => source_of(keyword, self.path, self.bind),
            None => Ok(there),
        }
    }
}

impl ConfigModel {
    /// The configuration with what is set laid over it, but for the source.
    pub open spec fn overlaid(self, over: Overlay) -> ConfigModel {
        ConfigModel {
            source: self.source,
            format: AudioFormat {
                sample_rate: or_else(over.sample_rate, self.format.sample_rate),
                channels: or_else(over.channels, self.format.channels),
                bits: or_else(over.bits, self.format.bits),
            },
            bind_ip: or_else(over.bind_ip, self.bind_ip),
            slim_port: or_else(over.slim_port, self.slim_port),
            http_port: or_else(over.http_port, self.http_port),
            discovery: or_else(over.discovery, self.discovery),
            sync: or_else(over.sync, self.sync),
            server_name: or_else(over.name, self.server_name),
            buffer_bytes: or_else(over.buffer_bytes, self.buffer_bytes),
        }
    }
}

/// The final configuration: the flags over the file, if there is one, over the
/// defaults. The source is looked at first, then the format.
pub open spec fn resolved(file: Option<Overlay>, flags: Overlay) -> Result<
    ConfigModel,
    ErrorModel,
> {
    let set = match file {
        Some(f) => flags.over(f),
        None => flags,
    };
    match set.source_over(defaults().source) {
        Ok(source) => {
            let config = ConfigModel { source, ..defaults().overlaid(set) };
            match config.format.first_error() {
                Ok(_) => Ok(config),
                Err(e) => Err(ErrorModel::Format(e)),
            }
        },
        Err(e) => Err(e),
    }
}

impl Default for Config {
    fn default() -> (config: Self)
        ensures
            config@ == defaults(),
    {
        Config {
            source: InputSource::Stdin,
            format: AudioFormat { sample_rate: 44100, channels: 2, bits: 16 },
            bind_ip: "0.0.0.0".to_owned(),
            slim_port: 3483,
            http_port: 9000,
            discovery: true,
            sync: true,
            server_name: "squeezed".to_owned(),
            buffer_bytes: MAX_BUFFERED,
        }
    }
}

/// What has been said of the source so far: its keyword, and the operands that
/// it may need.
struct SourceChoice {
    source: Option<String>,
    path: Option<String>,
    bind: Option<String>,
}

/// What has been said of the source so far.
struct ChoiceModel {
    source: Option<Seq<char>>,
    path: Option<Seq<char>>,
    bind: Option<Seq<char>>,
}

impl View for SourceChoice {
    type V = ChoiceModel;

    closed spec fn view(&self) -> ChoiceModel {
        ChoiceModel {
            source: text_view(self.source),
            path: text_view(self.path),
            bind: text_view(self.bind),
        }
    }
}

impl ChoiceModel {
    /// The choice with what is set laid over it.
    spec fn under(self, over: Overlay) -> ChoiceModel {
        ChoiceModel {
            source: or_below(over.source, self.source),
            path: or_below(over.path, self.path),
            bind: or_below(over.bind, self.bind),
        }
    }
}

/// A text that may be missing, borrowed.
fn borrowed(text: &Option<String>) -> (t: Option<&str>)
    ensures
        str_view(t) == text_view(*text),
{
    match text {
        Some(t) => Some(t.as_str()),
        None => None,
    }
}

/// The view of a configuration or of what is wrong with it.
pub open spec fn config_view(config: Result<Config, ConfigError>) -> Result<
    ConfigModel,
    ErrorModel,
> {
    match config {
        Ok(c) => Ok(c@),
        Err(e) => Err(e@),
    }
}

impl Config {
    /// Resolve the final configuration from flags and an optional file.
    pub fn resolve(cli: &Cli, file: Option<FileConfig>) -> (config: Result<Config, ConfigError>)
        ensures
            config_view(config) == resolved(
                match file {
                    Some(f) => Some(f@),
                    None => None,
                },
                cli@,
            ),
    {
        let mut cfg = Config::default();
        let mut choice = SourceChoice { source: None, path: None, bind: None };
        if let Some(f) = file {
            cfg.apply_file(f, &mut choice);
        }
        cfg.apply_cli(cli, &mut choice);
        if let Some(src) = &choice.source {
            match build_source(src.as_str(), borrowed(&choice.path), borrowed(&choice.bind)) {
                Ok(source) => {
                    cfg.source = source;
                },
                Err(e) => return Err(e),
            }
        }
        match cfg.format.validate() {
            Ok(()) => Ok(cfg),
            Err(e) => Err(ConfigError::Format(e)),
        }
    }

    /// Set what is given of the format.
    fn apply_format(&mut self, rate: Option<u32>, channels: Option<u8>, bits: Option<u8>)
        ensures
            final(self)@ == (ConfigModel {
                format: AudioFormat {
                    sample_rate: or_else(rate, old(self).format.sample_rate),
                    channels: or_else(channels, old(self).format.channels),
                    bits: or_else(bits, old(self).format.bits),
                },
                ..old(self)@
            }),
    {
        if let Some(rate) = rate {
            self.format.sample_rate = rate;
        }
        if let Some(ch) = channels {
            self.format.channels = ch;
        }
        if let Some(bits) = bits {
            self.format.bits = bits;
        }
    }

    /// Set what is given of the numbers and switches of the server.
    fn apply_server(
        &mut self,
        slim_port: Option<u16>,
        http_port: Option<u16>,
        discovery: Option<bool>,
        sync: Option<bool>,
        buffer_bytes: Option<usize>,
    )
        ensures
            final(self)@ == (ConfigModel {
                slim_port: or_else(slim_port, old(self).slim_port),
                http_port: or_else(http_port, old(self).http_port),
                discovery: or_else(discovery, old(self).discovery),
                sync: or_else(sync, old(self).sync),
                buffer_bytes: or_else(buffer_bytes, old(self).buffer_bytes),
                ..old(self)@
            }),
    {
        if let Some(p) = slim_port {
            self.slim_port = p;
        }
        if let Some(p) = http_port {
            self.http_port = p;
        }
        if let Some(d) = discovery {
            self.discovery = d;
        }
        if let Some(s) = sync {
            self.sync = s;
        }
        if let Some(b) = buffer_bytes {
            self.buffer_bytes = b;
        }
    }

    /// Lay a file over the configuration, and what it says of the source over
    /// the choice of the source.
    fn apply_file(&mut self, f: FileConfig, choice: &mut SourceChoice)
        ensures
            final(self)@ == old(self)@.overlaid(f@),
            final(choice)@ == old(choice)@.under(f@),
    {
        self.apply_format(f.audio.sample_rate, f.audio.channels, f.audio.bits);
        self.apply_server(
            f.server.slim_port,
            f.server.http_port,
            f.server.discovery,
            None,
            f.server.buffer_bytes,
        );
        if let Some(ip) = f.server.bind_ip {
            self.bind_ip = ip;
        }
        if let Some(n) = f.server.name {
            self.server_name = n;
        }
        if let Some(source) = f.input.source {
            choice.source = Some(source);
        }
        if let Some(path) = f.input.path {
            choice.path = Some(path);
        }
        if let Some(bind) = f.input.bind {
            choice.bind = Some(bind);
        }
    }

    /// Lay the flags over the configuration, and what they say of the source
    /// over the choice of the source.
    fn apply_cli(&mut self, cli: &Cli, choice: &mut SourceChoice)
        ensures
            final(self)@ == old(self)@.overlaid(cli@),
            final(choice)@ == old(choice)@.under(cli@),
    {
        self.apply_format(cli.sample_rate, cli.channels, cli.bits);
        self.apply_server(
            cli.slim_port,
            cli.http_port,
            cli.discovery,
            cli.sync,
            cli.buffer_bytes,
        );
        if let Some(ip) = &cli.bind_ip {
            self.bind_ip = ip.clone();
        }
        if let Some(n) = &cli.name {
            self.server_name = n.clone();
        }
        if let Some(source) = &cli.source {
            choice.source = Some(source.clone());
        }
        if let Some(path) = &cli.path {
            choice.path = Some(path.clone());
        }
        if let Some(bind) = &cli.tcp_bind {
            choice.bind = Some(bind.clone());
        }
    }
}

// ---------------------------------------------------------------------------
// Laws
// ---------------------------------------------------------------------------

/// An overlay that sets nothing.
pub open spec fn nothing_set() -> Overlay {
    Overlay {
        source: None,
        path: None,
        bind: None,
        sample_rate: None,
        channels: None,
        bits: None,
        bind_ip: None,
        slim_port: None,
        http_port: None,
        discovery: None,
        sync: None,
        name: None,
        buffer_bytes: None,
    }
}

/// Flags come before the file, and the file comes before the defaults, for
/// every setting on its own.
pub proof fn law_flags_beat_file_beats_defaults(file: Overlay, flags: Overlay, config: ConfigModel)
    requires
        resolved(Some(file), flags) == Ok::<ConfigModel, ErrorModel>(config),
    ensures
        config.format.sample_rate == or_else(flags.sample_rate, or_else(file.sample_rate, 44100)),
        config.format.channels == or_else(flags.channels, or_else(file.channels, 2)),
        config.format.bits == or_else(flags.bits, or_else(file.bits, 16)),
        config.bind_ip == or_else(flags.bind_ip, or_else(file.bind_ip, "0.0.0.0"@)),
        config.slim_port == or_else(flags.slim_port, or_else(file.slim_port, 3483)),
        config.http_port == or_else(flags.http_port, or_else(file.http_port, 9000)),
        config.discovery == or_else(flags.discovery, or_else(file.discovery, true)),
        config.sync == or_else(flags.sync, or_else(file.sync, true)),
        config.server_name == or_else(flags.name, or_else(file.name, "squeezed"@)),
        config.buffer_bytes == or_else(
            flags.buffer_bytes,
            or_else(file.buffer_bytes, MAX_BUFFERED),
        ),
        Ok::<SourceModel, ErrorModel>(config.source) == match or_below(flags.source, file.source) {
            Some(keyword) => source_of(
                keyword,
                or_below(flags.path, file.path),
                or_below(flags.bind, file.bind),
            ),
            None => Ok(SourceModel::Stdin),
        },
{
}

/// The operands of the source win on their own: a path flag goes over the path
/// of a file that names a source with one, and a bind flag over its bind
/// address; and a source flag takes either from the file where the flags do not
/// give it.
pub proof fn law_operand_flags_beat_the_file(
    file: Overlay,
    flags: Overlay,
    config: ConfigModel,
    keyword: Seq<char>,
)
    requires
        resolved(Some(file), flags) == Ok::<ConfigModel, ErrorModel>(config),
        or_below(flags.source, file.source) == Some(keyword),
    ensures
        (keyword == "fifo"@ && flags.path is Some) ==> config.source == SourceModel::Fifo(
            flags.path->0,
        ),
        (keyword == "fifo"@ && flags.path is None && file.path is Some) ==> config.source
            == SourceModel::Fifo(file.path->0),
        (keyword == "unix"@ && flags.path is Some) ==> config.source == SourceModel::Unix(
            flags.path->0,
        ),
        (keyword == "unix"@ && flags.path is None && file.path is Some) ==> config.source
            == SourceModel::Unix(file.path->0),
        (keyword == "tcp"@ && flags.bind is Some) ==> config.source == SourceModel::Tcp(
            flags.bind->0,
        ),
        (keyword == "tcp"@ && flags.bind is None && file.bind is Some) ==> config.source
            == SourceModel::Tcp(file.bind->0),
{
    reveal_strlit("stdin");
    reveal_strlit("-");
    reveal_strlit("fifo");
    reveal_strlit("unix");
    reveal_strlit("tcp");
    assert("fifo"@[0] == 'f' && "unix"@[0] == 'u' && "tcp"@[0] == 't' && "stdin"@[0] == 's' && "-"@[0]
        == '-');
}

/// A file that sets nothing is as good as none.
pub proof fn law_empty_file_changes_nothing(flags: Overlay)
    ensures
        resolved(Some(nothing_set()), flags) == resolved(None, flags),
{
}

/// With neither file nor flags the defaults hold.
pub proof fn law_defaults_are_a_configuration()
    ensures
        resolved(None, nothing_set()) == Ok::<ConfigModel, ErrorModel>(defaults()),
{
    assert(crate::audio::is_rate_index(44100, 3));
}

/// A resolved format can be described to every player.
pub proof fn law_resolved_format_is_valid(
    file: Option<Overlay>,
    flags: Overlay,
    config: ConfigModel,
)
    requires
        resolved(file, flags) == Ok::<ConfigModel, ErrorModel>(config),
    ensures
        config.format.valid(),
{
}

/// Every setting is its own: it is that of the flag where there is one, else
/// that of the key of the file where there is one, else the default.
pub proof fn law_each_setting_is_the_first_given(cli: Cli, file: FileConfig, config: ConfigModel)
    requires
        resolved(Some(file@), cli@) == Ok::<ConfigModel, ErrorModel>(config),
    ensures
        match (cli.sample_rate, file.audio.sample_rate) {
            (Some(x), _) => config.format.sample_rate == x,
            (None, Some(x)) => config.format.sample_rate == x,
            (None, None) => config.format.sample_rate == 44100,
        },
        match (cli.channels, file.audio.channels) {
            (Some(x), _) => config.format.channels == x,
            (None, Some(x)) => config.format.channels == x,
            (None, None) => config.format.channels == 2,
        },
        match (cli.bits, file.audio.bits) {
            (Some(x), _) => config.format.bits == x,
            (None, Some(x)) => config.format.bits == x,
            (None, None) => config.format.bits == 16,
        },
        match (cli.slim_port, file.server.slim_port) {
            (Some(x), _) => config.slim_port == x,
            (None, Some(x)) => config.slim_port == x,
            (None, None) => config.slim_port == 3483,
        },
        match (cli.http_port, file.server.http_port) {
            (Some(x), _) => config.http_port == x,
            (None, Some(x)) => config.http_port == x,
            (None, None) => config.http_port == 9000,
        },
        match (cli.discovery, file.server.discovery) {
            (Some(x), _) => config.discovery == x,
            (None, Some(x)) => config.discovery == x,
            (None, None) => config.discovery,
        },
        match (cli.buffer_bytes, file.server.buffer_bytes) {
            (Some(x), _) => config.buffer_bytes == x,
            (None, Some(x)) => config.buffer_bytes == x,
            (None, None) => config.buffer_bytes == 4 * 1024 * 1024,
        },
        match (cli.bind_ip, file.server.bind_ip) {
            (Some(x), _) => config.bind_ip == x@,
            (None, Some(x)) => config.bind_ip == x@,
            (None, None) => config.bind_ip == "0.0.0.0"@,
        },
        match (cli.name, file.server.name) {
            (Some(x), _) => config.server_name == x@,
            (None, Some(x)) => config.server_name == x@,
            (None, None) => config.server_name == "squeezed"@,
        },
        match cli.sync {
            Some(x) => config.sync == x,
            None => config.sync,
        },
        cli.source is None && file.input.source is None ==> config.source == SourceModel::Stdin,
        ({
            let keyword = if cli.source is Some {
                cli.source
            } else {
                file.input.source
            };
            let path = if cli.path is Some {
                cli.path
            } else {
                file.input.path
            };
            let bind = if cli.tcp_bind is Some {
                cli.tcp_bind
            } else {
                file.input.bind
            };
            keyword matches Some(k) ==> {
                &&& k@ == "fifo"@ ==> path is Some && config.source == SourceModel::Fifo(path->0@)
                &&& k@ == "unix"@ ==> path is Some && config.source == SourceModel::Unix(path->0@)
                &&& k@ == "tcp"@ && bind is Some ==> config.source == SourceModel::Tcp(bind->0@)
            }
        }),
{
    reveal_strlit("stdin");
    reveal_strlit("-");
    reveal_strlit("fifo");
    reveal_strlit("unix");
    reveal_strlit("tcp");
    assert("fifo"@[0] == 'f' && "unix"@[0] == 'u' && "tcp"@[0] == 't' && "stdin"@[0] == 's' && "-"@[0]
        == '-');
}

/// What a keyword stands for: `stdin` and `-` for the standard input, `fifo` and
/// `unix` for what is at the path, which they need, and `tcp` for a listener at
/// the bind address or else at port 4711 of every address. Any other keyword is
/// refused, and named.
pub proof fn law_keywords_stand_for_their_sources(
    keyword: Seq<char>,
    path: Option<Seq<char>>,
    bind: Option<Seq<char>>,
)
    ensures
        keyword == "stdin"@ || keyword == "-"@ ==> source_of(keyword, path, bind) == Ok::<
            SourceModel,
            ErrorModel,
        >(SourceModel::Stdin),
        keyword == "fifo"@ ==> match path {
            Some(p) => source_of(keyword, path, bind) == Ok::<SourceModel, ErrorModel>(
                SourceModel::Fifo(p),
            ),
            None => source_of(keyword, path, bind) == Err::<SourceModel, ErrorModel>(
                ErrorModel::FifoWithoutPath,
            ),
        },
        keyword == "unix"@ ==> match path {
            Some(p) => source_of(keyword, path, bind) == Ok::<SourceModel, ErrorModel>(
                SourceModel::Unix(p),
            ),
            None => source_of(keyword, path, bind) == Err::<SourceModel, ErrorModel>(
                ErrorModel::UnixWithoutPath,
            ),
        },
        keyword == "tcp"@ ==> match bind {
            Some(b) => source_of(keyword, path, bind) == Ok::<SourceModel, ErrorModel>(
                SourceModel::Tcp(b),
            ),
            None => source_of(keyword, path, bind) == Ok::<SourceModel, ErrorModel>(
                SourceModel::Tcp("0.0.0.0:4711"@),
            ),
        },
        keyword != "stdin"@ && keyword != "-"@ && keyword != "fifo"@ && keyword != "unix"@
            && keyword != "tcp"@ ==> source_of(keyword, path, bind) == Err::<
            SourceModel,
            ErrorModel,
        >(ErrorModel::UnknownSource(keyword)),
{
    reveal_strlit("stdin");
    reveal_strlit("-");
    reveal_strlit("fifo");
    reveal_strlit("unix");
    reveal_strlit("tcp");
    assert("fifo"@[0] == 'f' && "unix"@[0] == 'u' && "tcp"@[0] == 't' && "stdin"@[0] == 's' && "-"@[0]
        == '-');
}

/// When there is a configuration: where the source has what it needs and the
/// format that results can be described to a player. A fault of the source comes
/// before one of the format.
pub proof fn law_when_there_is_a_configuration(file: Overlay, flags: Overlay)
    ensures
        ({
            let keyword = match flags.source {
                Some(k) => Some(k),
                None => file.source,
            };
            let path = match flags.path {
                Some(p) => Some(p),
                None => file.path,
            };
            let bind = match flags.bind {
                Some(b) => Some(b),
                None => file.bind,
            };
            let format = AudioFormat {
                sample_rate: match (flags.sample_rate, file.sample_rate) {
                    (Some(x), _) => x,
                    (None, Some(x)) => x,
                    (None, None) => 44100,
                },
                channels: match (flags.channels, file.channels) {
                    (Some(x), _) => x,
                    (None, Some(x)) => x,
                    (None, None) => 2,
                },
                bits: match (flags.bits, file.bits) {
                    (Some(x), _) => x,
                    (None, Some(x)) => x,
                    (None, None) => 16,
                },
            };
            match (keyword, resolved(Some(file), flags)) {
                (Some(k), Ok(config)) => {
                    &&& source_of(k, path, bind) == Ok::<SourceModel, ErrorModel>(config.source)
                    &&& format.valid()
                },
                (None, Ok(config)) => config.source == SourceModel::Stdin && format.valid(),
                (Some(k), Err(e)) => match source_of(k, path, bind) {
                    Err(fault) => e == fault,
                    Ok(_) => !format.valid() && e is Format,
                },
                (None, Err(e)) => !format.valid() && e is Format,
            }
        }),
{
}

/// What is wrong is said with what was given: the unknown source, or the value of
/// the format that is not supported.
pub proof fn law_errors_name_what_was_given(source: Seq<char>, e: FormatError)
    ensures
        ({
            let unknown = ErrorModel::UnknownSource(source).text();
            exists|at: int|
                0 <= at && at + source.len() <= unknown.len() && #[trigger] unknown.subrange(
                    at,
                    at + source.len(),
                ) == source
        }),
        ErrorModel::Format(e).text() == e.text(),
{
    let unknown = ErrorModel::UnknownSource(source).text();
    let at = "unknown input source '"@.len() as int;
    assert(unknown.subrange(at, at + source.len()) =~= source);
}

/// The description of a source tells which kind it is, and ends with where it
/// is: sources with different descriptions are different, and the other way
/// round.
pub proof fn law_descriptions_tell_sources_apart(a: SourceModel, b: SourceModel)
    ensures
        description(a) == description(b) <==> a == b,
        ({
            let place = match a {
                SourceModel::Stdin => seq![],
                SourceModel::Fifo(path) => path,
                SourceModel::Unix(path) => path,
                SourceModel::Tcp(bind) => bind,
            };
            description(a).skip(description(a).len() - place.len()) == place
        }),
{
    reveal_strlit("stdin");
    reveal_strlit("fifo ");
    reveal_strlit("unix ");
    reveal_strlit("tcp ");
    lemma_description(a);
    lemma_description(b);
}

/// A description begins with the letter of its kind, and ends with the place.
proof fn lemma_description(source: SourceModel)
    ensures
        match source {
            SourceModel::Stdin => description(source)[0] == 's' && description(source).skip(
                description(source).len() as int,
            ) == Seq::<char>::empty(),
            SourceModel::Fifo(path) => description(source)[0] == 'f' && description(source).skip(5)
                == path && description(source).len() == 5 + path.len(),
            SourceModel::Unix(path) => description(source)[0] == 'u' && description(source).skip(5)
                == path && description(source).len() == 5 + path.len(),
            SourceModel::Tcp(bind) => description(source)[0] == 't' && description(source).skip(4)
                == bind && description(source).len() == 4 + bind.len(),
        },
{
    reveal_strlit("stdin");
    reveal_strlit("fifo ");
    reveal_strlit("unix ");
    reveal_strlit("tcp ");
    let text = description(source);
    match source {
        SourceModel::Stdin => {
            assert(text.skip(text.len() as int) =~= Seq::<char>::empty());
        },
        SourceModel::Fifo(path) => {
            assert(text.skip(5) =~= path);
        },
        SourceModel::Unix(path) => {
            assert(text.skip(5) =~= path);
        },
        SourceModel::Tcp(bind) => {
            assert(text.skip(4) =~= bind);
        },
    }
}

} // verus!
