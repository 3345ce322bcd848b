use std::collections::VecDeque;
use std::path::PathBuf;

use aperion::cli::{
    make_adfb, parse_cli_args, summary_line, unknown_argument_message, CliCommand, CliError,
    MakeAdfbError,
};
use aperion::display::{
    after_render, can_draw, preferred_index, surface_extent, RenderFollowup, RenderOutcome,
};
use aperion::intro::{
    decode_step, first_frame, DecodeEvent, DecodeQueue, DecodedFrame, FrameRead, IntroError,
    IntroFrame, Received,
};
use aperion::logging::{format_timestamp, log_line, LogOptions};
use aperion::probe::parse_probe_output;
use aperion::{check_binary, parse_binary, AdfCheckSummary, AdfError};

fn number(text: &str) -> u64 {
    text.parse::<f64>().map(f64::to_bits).unwrap_or(0)
}

fn args(items: &[&str]) -> Vec<(Option<String>, String)> {
    items.iter().map(|a| (Some(a.to_string()), a.to_string())).collect()
}

fn usage<P>(r: Result<CliCommand<P>, CliError<P>>) -> String {
    match r {
        Err(CliError::Usage(m)) => m,
        _ => panic!("expected a usage error"),
    }
}

#[test]
fn no_arguments_run_the_app() {
    assert!(matches!(parse_cli_args(args(&[])), Ok(CliCommand::RunApp)));
}

#[test]
fn check_and_view_take_one_path() {
    match parse_cli_args(args(&["--checkadf", "scene.adf"])) {
        Ok(CliCommand::CheckAdf(p)) => assert_eq!(p, "scene.adf"),
        _ => panic!("expected --checkadf"),
    }
    match parse_cli_args(args(&["--viewadf", "scene.adf"])) {
        Ok(CliCommand::ViewAdf(p)) => assert_eq!(p, "scene.adf"),
        _ => panic!("expected --viewadf"),
    }
    assert_eq!(usage(parse_cli_args(args(&["--checkadf"]))), "missing file path after --checkadf");
    assert_eq!(
        usage(parse_cli_args(args(&["--checkadf", "a", "b"]))),
        "unexpected extra arguments after --checkadf <file>"
    );
    assert_eq!(usage(parse_cli_args(args(&["--viewadf"]))), "missing file path after --viewadf");
    assert_eq!(
        usage(parse_cli_args(args(&["--viewadf", "a", "b"]))),
        "unexpected extra arguments after --viewadf <file>"
    );
}

#[test]
fn make_takes_two_paths() {
    match parse_cli_args(args(&["--makeadfb", "in.adf", "out.adfb"])) {
        Ok(CliCommand::MakeAdfb { input, output }) => {
            assert_eq!(input, "in.adf");
            assert_eq!(output, "out.adfb");
        }
        _ => panic!("expected --makeadfb"),
    }
    assert_eq!(usage(parse_cli_args(args(&["--makeadfb"]))), "missing input path after --makeadfb");
    assert_eq!(
        usage(parse_cli_args(args(&["--makeadfb", "in"]))),
        "missing output path after --makeadfb <input>"
    );
    assert_eq!(
        usage(parse_cli_args(args(&["--makeadfb", "a", "b", "c"]))),
        "unexpected extra arguments after --makeadfb <input> <output>"
    );
}

#[test]
fn unknown_and_non_utf8_arguments() {
    match parse_cli_args(args(&["--help"])) {
        Err(CliError::UnknownArgument(a)) => assert_eq!(a, "--help"),
        _ => panic!("expected an unknown argument"),
    }
    let raw = vec![(None, PathBuf::from("x")), (None, PathBuf::from("y"))];
    match parse_cli_args(raw) {
        Err(CliError::UnknownArgument(a)) => assert_eq!(a, PathBuf::from("x")),
        _ => panic!("expected an unknown argument"),
    }
    assert_eq!(
        unknown_argument_message("\"--help\""),
        "unknown argument \"--help\". supported usage: aperion --checkadf <file> | aperion --makeadfb <input> <output> | aperion --viewadf <file>"
    );
}

#[test]
fn summary_line_reports_the_counts() {
    let summary = AdfCheckSummary { version: 1, material_imports: 12, edits: 0 };
    assert_eq!(summary_line(&summary), "version: 1, material imports: 12, edits: 0");
}

#[test]
fn make_adfb_converts_and_reports_stages() {
    let source = "adf 1; use material m from \"m.amat\"; + sphere(r: 2);";
    let out = make_adfb(source.as_bytes(), &number).ok().expect("conversion should succeed");
    let document = parse_binary(&out).unwrap();
    assert_eq!(document, aperion::parse(source, &number).unwrap());
    assert_eq!(check_binary(&out).unwrap().edits, 1);
    match make_adfb(b"adf 1; +", &number) {
        Err(MakeAdfbError::Parse(AdfError::Parse(m))) => {
            assert_eq!(m, "expected an identifier at line 1, column 9")
        }
        _ => panic!("expected a parse failure"),
    }
}

#[test]
fn log_lines_and_timestamps() {
    assert_eq!(format_timestamp(0, 7), "000.007s");
    assert_eq!(format_timestamp(12, 345), "012.345s");
    assert_eq!(format_timestamp(12345, 0), "12345.000s");
    assert_eq!(log_line(Some("MAIN"), "001.250s", "starting app"), "(001.250s) [MAIN] starting app");
    assert_eq!(log_line(None, "001.250s", "hello"), "hello");
}

#[test]
fn verbose_only_loggers_wait_for_verbosity() {
    let plain = LogOptions::default();
    assert!(!plain.verbose_only);
    assert!(plain.admits(false));
    let verbose = LogOptions { verbose_only: true };
    assert!(!verbose.admits(false));
    assert!(verbose.admits(true));
}

fn frame(index: usize) -> DecodedFrame {
    DecodedFrame { index, frame: IntroFrame { width: 1, height: 1, rgba: vec![index as u8; 4] } }
}

#[test]
fn decode_queue_receives_events() {
    let mut queue = DecodeQueue::new();
    assert!(matches!(queue.receive(Received::Event(DecodeEvent::Frame(frame(0)))), Ok(true)));
    assert!(matches!(queue.receive(Received::Event(DecodeEvent::Frame(frame(1)))), Ok(true)));
    assert_eq!(queue.pending.len(), 2);
    assert!(matches!(queue.receive(Received::Empty), Ok(false)));
    match queue.receive(Received::Disconnected) {
        Err(IntroError::VideoDecode(m)) => assert_eq!(m, "video decoder disconnected unexpectedly"),
        _ => panic!("expected a decode error"),
    }
    assert!(matches!(queue.receive(Received::Event(DecodeEvent::Finished)), Ok(true)));
    assert!(queue.finished);
    assert!(matches!(queue.receive(Received::Disconnected), Ok(false)));
    match queue.receive(Received::Event(DecodeEvent::Error("boom".to_string()))) {
        Err(e) => assert_eq!(e.to_string(), "boom"),
        _ => panic!("expected the decoder's error"),
    }
}

#[test]
fn decode_queue_shows_the_last_due_frame() {
    let mut queue = DecodeQueue { pending: VecDeque::from(vec![frame(1), frame(2), frame(5)]), finished: false };
    let shown = queue.advance(Some(frame(0)), 0);
    assert_eq!(shown.map(|f| f.index), Some(0));
    assert_eq!(queue.pending.len(), 3);
    let shown = queue.advance(Some(frame(0)), 3);
    assert_eq!(shown.as_ref().map(|f| f.index), Some(2));
    assert_eq!(queue.pending.len(), 1);
    let shown = queue.advance(shown, 9);
    assert_eq!(shown.map(|f| f.index), Some(5));
    assert!(queue.pending.is_empty());
}

#[test]
fn intro_error_messages() {
    let e = IntroError::MissingVideoFile(PathBuf::from("assets/intros/x/intro.mp4"));
    assert_eq!(e.to_string(), "intro video file does not exist: assets/intros/x/intro.mp4");
    let e = IntroError::NoFramesDecoded(PathBuf::from("v.mp4"));
    assert_eq!(e.to_string(), "ffmpeg returned no frames for v.mp4");
    let e = IntroError::MissingIntroRoot(PathBuf::from("r"));
    assert_eq!(e.to_string(), "intro asset directory does not exist: r");
    let e = IntroError::InvalidAssetName(PathBuf::from("/"));
    assert_eq!(e.to_string(), "invalid intro asset name from path: /");
    let e = IntroError::AudioPlayback("no device".to_string());
    assert_eq!(e.to_string(), "no device");
}

#[test]
fn probe_output_fields() {
    let out = "width=1920\r\nheight= 1080 \nfoo=bar\nnothing here\navg_frame_rate=30000/1001\nduration=12.5\n";
    let fields = parse_probe_output(out);
    assert_eq!(fields.width, Some(1920));
    assert_eq!(fields.height, Some(1080));
    assert_eq!(fields.avg_frame_rate.as_deref(), Some("30000/1001"));
    assert_eq!(fields.duration.as_deref(), Some("12.5"));

    let fields = parse_probe_output("width=+64\nheight=-1\nwidth=abc\n");
    assert_eq!(fields.width, None);
    assert_eq!(fields.height, None);
    let fields = parse_probe_output("width=4294967295\nheight=4294967296");
    assert_eq!(fields.width, Some(u32::MAX));
    assert_eq!(fields.height, None);
    let fields = parse_probe_output(" width = +64 ");
    assert_eq!(fields.width, Some(64));
    assert_eq!(fields.avg_frame_rate, None);
}

#[test]
fn surface_choices() {
    assert_eq!(preferred_index(&vec![false, true, true]), 1);
    assert_eq!(preferred_index(&vec![false, false]), 0);
    assert_eq!(surface_extent(0, 720), (1, 720));
    assert_eq!(surface_extent(1280, 0), (1280, 1));
    assert!(can_draw(2, 3));
    assert!(!can_draw(0, 3));
}

#[test]
fn what_follows_a_frame() {
    assert_eq!(
        after_render(RenderOutcome::Presented, false),
        RenderFollowup { show_window: true, resize: false, exit: false }
    );
    assert_eq!(
        after_render(RenderOutcome::Presented, true),
        RenderFollowup { show_window: false, resize: false, exit: false }
    );
    assert_eq!(
        after_render(RenderOutcome::Outdated, true),
        RenderFollowup { show_window: false, resize: true, exit: false }
    );
    assert_eq!(
        after_render(RenderOutcome::OutOfMemory, false),
        RenderFollowup { show_window: false, resize: false, exit: true }
    );
    assert_eq!(
        after_render(RenderOutcome::Timeout, false),
        RenderFollowup { show_window: false, resize: false, exit: false }
    );
}

#[test]
fn intro_io_error_gives_its_cause() {
    let e = IntroError::Io(std::io::Error::new(std::io::ErrorKind::NotFound, "no such intro"));
    assert_eq!(e.to_string(), "no such intro");
}

#[test]
fn decoder_steps() {
    let (event, more) = decode_step(3, 2, 1, FrameRead::Frame(vec![9; 8]), "v.mp4");
    assert!(more);
    match event {
        DecodeEvent::Frame(f) => {
            assert_eq!(f.index, 3);
            assert_eq!((f.frame.width, f.frame.height), (2, 1));
            assert_eq!(f.frame.rgba, vec![9; 8]);
        }
        _ => panic!("expected a frame"),
    }
    match decode_step(0, 2, 1, FrameRead::End, "v.mp4") {
        (DecodeEvent::Error(m), false) => assert_eq!(m, "ffmpeg produced no frames for v.mp4"),
        _ => panic!("expected an error"),
    }
    assert!(matches!(decode_step(5, 2, 1, FrameRead::End, "v.mp4"), (DecodeEvent::Finished, false)));
    match decode_step(5, 2, 1, FrameRead::Failed("pipe broke".to_string()), "v.mp4") {
        (DecodeEvent::Error(m), false) => {
            assert_eq!(m, "failed while decoding video frames from v.mp4: pipe broke")
        }
        _ => panic!("expected an error"),
    }

    let first = first_frame(Ok(DecodeEvent::Frame(frame(0))), PathBuf::from("v.mp4"), "v.mp4");
    assert_eq!(first.ok().map(|f| f.index), Some(0));
    match first_frame(Ok(DecodeEvent::Finished), PathBuf::from("v.mp4"), "v.mp4") {
        Err(IntroError::NoFramesDecoded(p)) => assert_eq!(p, PathBuf::from("v.mp4")),
        _ => panic!("expected no frames"),
    }
    match first_frame(Err("timed out".to_string()), PathBuf::from("v.mp4"), "v.mp4") {
        Err(e) => assert_eq!(
            e.to_string(),
            "timed out waiting for the first decoded frame from v.mp4: timed out"
        ),
        _ => panic!("expected a time-out"),
    }
    match first_frame(Ok(DecodeEvent::Error("bad".to_string())), PathBuf::from("v.mp4"), "v.mp4") {
        Err(e) => assert_eq!(e.to_string(), "bad"),
        _ => panic!("expected the decoder's error"),
    }
}
