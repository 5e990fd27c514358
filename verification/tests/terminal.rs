use std::{cell::RefCell, rc::Rc};

use e_agent::render::ScreenMode;
use e_agent::terminal::{TerminalDriver, TerminalSession};

struct Fake {
    log: Rc<RefCell<Vec<&'static str>>>,
    fail: bool,
    started: bool,
}

impl TerminalDriver for Fake {
    fn started_in(&self) -> Option<ScreenMode> {
        if !self.started {
            return None;
        }
        self.log.borrow().iter().rev().find_map(|entry| match *entry {
            "start-main" => Some(ScreenMode::Main),
            "start-alternate" => Some(ScreenMode::Alternate),
            _ => None,
        })
    }

    fn start(&mut self, mode: ScreenMode) -> Result<(), String> {
        self.log.borrow_mut().push(match mode {
            ScreenMode::Main => "start-main",
            ScreenMode::Alternate => "start-alternate",
        });
        self.started = true;
        if self.fail {
            self.stop()?;
            return Err("setup".to_string());
        }
        Ok(())
    }

    fn stop(&mut self) -> Result<(), String> {
        if self.started {
            self.log.borrow_mut().push("stop");
            self.started = false;
        }
        Ok(())
    }
}

#[test]
fn failed_setup_rolls_back_and_screen_modes_are_distinct() {
    let log = Rc::new(RefCell::new(Vec::new()));
    assert!(
        TerminalSession::start(
            Fake { log: log.clone(), fail: true, started: false },
            ScreenMode::Alternate,
        )
        .is_err()
    );
    let mut session = TerminalSession::start(
        Fake { log: log.clone(), fail: false, started: false },
        ScreenMode::Main,
    )
    .unwrap();
    session.stop().unwrap();
    session.stop().unwrap();
    assert_eq!(*log.borrow(), vec!["start-alternate", "stop", "start-main", "stop"]);
}

#[test]
fn a_started_session_holds_its_mode_until_stopped() {
    let log = Rc::new(RefCell::new(Vec::new()));
    let mut session = TerminalSession::start(
        Fake { log: log.clone(), fail: false, started: false },
        ScreenMode::Alternate,
    )
    .unwrap();
    assert_eq!(session.stop(), Ok(()));
    assert_eq!(*log.borrow(), vec!["start-alternate", "stop"]);
    let failed = Fake { log: log.clone(), fail: true, started: false };
    assert_eq!(TerminalSession::start(failed, ScreenMode::Main).err(), Some("setup".to_string()));
    assert_eq!(*log.borrow(), vec!["start-alternate", "stop", "start-main", "stop"]);
}
