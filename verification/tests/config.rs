use squeezed::audio::FormatError;
use squeezed::buffer::MAX_BUFFERED;
use squeezed::cli::{run_command, Cli, Command, CommandError, DriverAction};
use squeezed::config::{
    build_source, describe_source, Config, ConfigError, FileAudio, FileConfig, FileInput,
    FileServer, InputSource,
};

fn no_flags() -> Cli {
    Cli {
        config: None,
        source: None,
        path: None,
        tcp_bind: None,
        sample_rate: None,
        channels: None,
        bits: None,
        bind_ip: None,
        slim_port: None,
        http_port: None,
        discovery: None,
        sync: None,
        name: None,
        buffer_bytes: None,
        command: None,
    }
}

fn empty_file() -> FileConfig {
    FileConfig {
        input: FileInput { source: None, path: None, bind: None },
        audio: FileAudio { sample_rate: None, channels: None, bits: None },
        server: FileServer {
            bind_ip: None,
            slim_port: None,
            http_port: None,
            discovery: None,
            name: None,
            buffer_bytes: None,
        },
    }
}

fn some(s: &str) -> Option<String> {
    Some(s.to_string())
}

fn resolved(cli: &Cli, file: Option<FileConfig>) -> Config {
    match Config::resolve(cli, file) {
        Ok(c) => c,
        Err(e) => panic!("{}", e.message()),
    }
}

fn refused(cli: &Cli, file: Option<FileConfig>) -> ConfigError {
    match Config::resolve(cli, file) {
        Ok(_) => panic!("resolved"),
        Err(e) => e,
    }
}

fn is_default(c: &Config) {
    assert!(matches!(c.source, InputSource::Stdin));
    assert_eq!((c.format.sample_rate, c.format.channels, c.format.bits), (44100, 2, 16));
    assert_eq!(c.bind_ip, "0.0.0.0");
    assert_eq!((c.slim_port, c.http_port), (3483, 9000));
    assert_eq!((c.discovery, c.sync), (true, true));
    assert_eq!(c.server_name, "squeezed");
    assert_eq!(c.buffer_bytes, MAX_BUFFERED);
    assert_eq!(c.buffer_bytes, 4194304);
}

#[test]
fn defaults_without_file_and_flags() {
    is_default(&Config::default());
    is_default(&resolved(&no_flags(), None));
    is_default(&resolved(&no_flags(), Some(empty_file())));
}

#[test]
fn partial_file_overrides_what_it_sets() {
    let mut file = empty_file();
    file.input.source = some("fifo");
    file.input.path = some("/tmp/squeezed.fifo");
    file.audio.bits = Some(24);
    file.server.name = some("Den");
    file.server.discovery = Some(false);
    let c = resolved(&no_flags(), Some(file));
    assert!(matches!(c.source, InputSource::Fifo { ref path } if path == "/tmp/squeezed.fifo"));
    assert_eq!((c.format.sample_rate, c.format.bits), (44100, 24));
    assert_eq!(c.server_name, "Den");
    assert!(!c.discovery);
    assert_eq!(c.http_port, 9000);
}

#[test]
fn flags_win_over_the_file() {
    let mut file = empty_file();
    file.input.source = some("unix");
    file.input.path = some("/tmp/a.sock");
    file.audio.sample_rate = Some(48000);
    file.audio.channels = Some(1);
    file.server.bind_ip = some("10.0.0.1");
    file.server.slim_port = Some(1);
    file.server.http_port = Some(2);
    file.server.buffer_bytes = Some(3);
    let mut cli = no_flags();
    cli.source = some("tcp");
    cli.sample_rate = Some(96000);
    cli.http_port = Some(9001);
    cli.name = some("Kitchen");
    cli.sync = Some(false);
    cli.discovery = Some(false);
    let c = resolved(&cli, Some(file));
    assert!(matches!(c.source, InputSource::Tcp { ref bind } if bind == "0.0.0.0:4711"));
    assert_eq!((c.format.sample_rate, c.format.channels), (96000, 1));
    assert_eq!(c.bind_ip, "10.0.0.1");
    assert_eq!((c.slim_port, c.http_port), (1, 9001));
    assert_eq!(c.server_name, "Kitchen");
    assert_eq!(c.buffer_bytes, 3);
    assert_eq!((c.discovery, c.sync), (false, false));
}

#[test]
fn flags_set_everything() {
    let mut cli = no_flags();
    cli.source = some("tcp");
    cli.tcp_bind = some("127.0.0.1:1");
    cli.bits = Some(32);
    cli.channels = Some(1);
    cli.bind_ip = some("::");
    cli.slim_port = Some(7);
    cli.buffer_bytes = Some(8);
    let c = resolved(&cli, None);
    assert!(matches!(c.source, InputSource::Tcp { ref bind } if bind == "127.0.0.1:1"));
    assert_eq!((c.format.channels, c.format.bits), (1, 32));
    assert_eq!(c.bind_ip, "::");
    assert_eq!((c.slim_port, c.buffer_bytes), (7, 8));
}

#[test]
fn bad_configurations_are_refused() {
    let mut cli = no_flags();
    cli.bits = Some(12);
    assert!(matches!(
        refused(&cli, None),
        ConfigError::Format(FormatError::UnsupportedBits(12))
    ));
    cli.source = some("fifo");
    let e = refused(&cli, None);
    assert!(matches!(e, ConfigError::FifoWithoutPath));
    assert_eq!(e.message(), "input source 'fifo' requires a path (--path)");
    // What is wrong with the source comes before what is wrong with the format.
    cli.source = None;
    let mut file = empty_file();
    file.input.source = some("unix");
    let e = refused(&cli, Some(file));
    assert!(matches!(e, ConfigError::UnixWithoutPath));
    assert_eq!(e.message(), "input source 'unix' requires a path (--path)");
    cli.source = some("radio");
    let e = refused(&cli, None);
    assert_eq!(
        e.message(),
        "unknown input source 'radio' (expected stdin, fifo, unix or tcp)"
    );
    assert!(matches!(e, ConfigError::UnknownSource(s) if s == "radio"));
}

#[test]
fn operands_of_the_source_win_on_their_own() {
    let file = |source: Option<&str>, path: Option<&str>, bind: Option<&str>| {
        let mut f = empty_file();
        f.input.source = source.map(str::to_string);
        f.input.path = path.map(str::to_string);
        f.input.bind = bind.map(str::to_string);
        Some(f)
    };
    let line = |cli: &Cli, f| describe_source(&resolved(cli, f).source);
    let mut cli = no_flags();
    cli.path = some("/b");
    cli.tcp_bind = some("[::]:2");
    assert_eq!(line(&cli, file(Some("fifo"), Some("/a"), None)), "fifo /b");
    assert_eq!(line(&cli, file(Some("unix"), None, None)), "unix /b");
    assert_eq!(line(&cli, file(Some("tcp"), None, Some("[::]:1"))), "tcp [::]:2");
    // Operands alone name no source.
    assert_eq!(line(&cli, None), "stdin");
    assert_eq!(line(&cli, file(None, Some("/a"), None)), "stdin");
    // A source flag takes its operand from the file.
    let mut cli = no_flags();
    cli.source = some("fifo");
    assert_eq!(line(&cli, file(None, Some("/a"), None)), "fifo /a");
    assert_eq!(line(&cli, file(Some("unix"), Some("/a"), None)), "fifo /a");
    cli.source = some("tcp");
    assert_eq!(line(&cli, file(Some("stdin"), None, Some("[::]:1"))), "tcp [::]:1");
    // A source flag goes over whatever source the file names.
    cli.source = some("stdin");
    assert_eq!(line(&cli, file(Some("radio"), None, None)), "stdin");
}

#[test]
fn format_error_keeps_its_words() {
    let mut cli = no_flags();
    cli.channels = Some(6);
    assert_eq!(refused(&cli, None).message(), "unsupported channel count: 6 (expected 1 or 2)");
}

#[test]
fn sources_describe_themselves() {
    let line = |source: &str, path: Option<&str>, bind: Option<&str>| {
        match build_source(source, path, bind) {
            Ok(s) => describe_source(&s),
            Err(e) => e.message(),
        }
    };
    assert_eq!(line("stdin", None, None), "stdin");
    assert_eq!(line("-", Some("x"), None), "stdin");
    assert_eq!(line("fifo", Some("/tmp/f"), None), "fifo /tmp/f");
    assert_eq!(line("unix", Some("/tmp/s"), None), "unix /tmp/s");
    assert_eq!(line("tcp", None, None), "tcp 0.0.0.0:4711");
    assert_eq!(line("tcp", None, Some("[::]:1")), "tcp [::]:1");
}

#[test]
fn driver_command_is_for_macos() {
    let install = Command::Driver { action: DriverAction::Install };
    assert_eq!(run_command(&install, true), Ok(DriverAction::Install));
    let status = Command::Driver { action: DriverAction::Status };
    assert_eq!(run_command(&status, true), Ok(DriverAction::Status));
    let e = run_command(&Command::Driver { action: DriverAction::Uninstall }, false);
    assert_eq!(e, Err(CommandError::OnlyOnMacos));
    assert_eq!(
        CommandError::OnlyOnMacos.message(),
        "the `driver` subcommand is only available on macOS"
    );
}
