use serial_link::controller::{ControlAction, Controller};
use serial_link::data::Data;
use serial_link::worker::ThreadMsg;

#[test]
fn print_accumulates_pending_output() {
    let mut ctl = Controller::new();
    assert!(matches!(
        ctl.handle_msg(ThreadMsg::Print("abc".to_string())),
        ControlAction::Continue
    ));
    assert!(matches!(
        ctl.handle_msg(ThreadMsg::Print("def".to_string())),
        ControlAction::Continue
    ));
    assert_eq!(ctl.pending.as_str(), "abcdef");
}

#[test]
fn lifecycle_notices_are_banners() {
    let mut ctl = Controller::new();
    assert!(matches!(ctl.handle_msg(ThreadMsg::Started), ControlAction::Continue));
    assert!(matches!(ctl.handle_msg(ThreadMsg::Done), ControlAction::Continue));
    assert!(matches!(ctl.handle_msg(ThreadMsg::Exiting), ControlAction::Stop));
    assert_eq!(ctl.pending.as_str(), "\nThread Started\n\nThread Done\n\nThread Exiting\n");
}

#[test]
fn data_is_forwarded_untouched() {
    let mut ctl = Controller::new();
    match ctl.handle_msg(ThreadMsg::Data(Data(7, -8, 9))) {
        ControlAction::ForwardData(d) => assert_eq!(d, Data(7, -8, 9)),
        other => panic!("unexpected action: {:?}", action_name(&other)),
    }
    assert!(ctl.pending.is_empty());
}

#[test]
fn error_is_reported_and_loop_goes_on() {
    let mut ctl = Controller::new();
    match ctl.handle_msg(ThreadMsg::Error("serial read error".to_string())) {
        ControlAction::ReportError(e) => assert_eq!(e.as_str(), "serial read error"),
        other => panic!("unexpected action: {:?}", action_name(&other)),
    }
    assert!(ctl.pending.is_empty());
}

#[test]
fn take_pending_empties_the_buffer() {
    let mut ctl = Controller::new();
    ctl.handle_msg(ThreadMsg::Print("line".to_string()));
    let out = ctl.take_pending();
    assert_eq!(out.as_str(), "line");
    assert!(ctl.pending.is_empty());
}

fn action_name(a: &ControlAction) -> &'static str {
    match a {
        ControlAction::Continue => "Continue",
        ControlAction::ReportError(_) => "ReportError",
        ControlAction::ForwardData(_) => "ForwardData",
        ControlAction::Stop => "Stop",
    }
}
