//! Terminal setup and teardown around a driver that the host supplies.

use vstd::prelude::*;
use crate::render::ScreenMode;

verus! {

/// What a terminal backend does to enter and leave interactive mode. A driver
/// whose setup fails part way undoes what it did before reporting the error.
///
/// The clauses below are the promises an implementation makes; the host
/// supplies the implementations, and nothing here checks them.
pub trait TerminalDriver {
    /// The screen mode the terminal is set up in, or `None` when it is not
    /// set up.
    spec fn started_in(&self) -> Option<ScreenMode>;

    /// Sets the terminal up in `mode`. On success it is set up in that mode;
    /// on failure whatever was done is undone.
    fn start(&mut self, mode: ScreenMode) -> (r: Result<(), String>)
        ensures
            r is Ok ==> final(self).started_in() == Some(mode),
            r is Err ==> final(self).started_in() is None,
    ;

    /// Tears the terminal down; on success it is no longer set up.
    fn stop(&mut self) -> (r: Result<(), String>)
        ensures
            r is Ok ==> final(self).started_in() is None,
    ;
}

/// A started terminal; stopping it hands teardown to the driver.
pub struct TerminalSession<D: TerminalDriver> {
    driver: D,
}

impl<D: TerminalDriver> TerminalSession<D> {
    pub closed spec fn driver_view(&self) -> D {
        self.driver
    }

    /// The session for a driver whose setup reported `outcome`: a session
    /// when setup succeeded, the setup error otherwise.
    pub fn started(driver: D, outcome: Result<(), String>) -> (r: Result<Self, String>)
        ensures
            outcome is Ok <==> r is Ok,
            r matches Ok(s) ==> s.driver_view() == driver,
            outcome matches Err(e) ==> r == Err::<Self, String>(e),
    {
        match outcome {
            Ok(()) => Ok(TerminalSession { driver }),
            Err(e) => Err(e),
        }
    }

    /// Sets the terminal up in `mode`; the session exists only when the
    /// driver's setup succeeded, and then holds the driver set up in `mode`.
    /// The error is the driver's own; whether setup succeeds is the driver's
    /// to decide.
    pub fn start(driver: D, mode: ScreenMode) -> (r: Result<Self, String>)
        ensures
            r matches Ok(s) ==> s.driver_view().started_in() == Some(mode),
    {
        let mut driver = driver;
        let outcome = driver.start(mode);
        Self::started(driver, outcome)
    }

    /// Tears the terminal down through the driver and reports its result;
    /// when that is `Ok` the driver is no longer set up.
    pub fn stop(&mut self) -> (r: Result<(), String>)
        ensures
            r is Ok ==> final(self).driver_view().started_in() is None,
    {
        self.driver.stop()
    }
}

} // verus!
