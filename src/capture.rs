//! Lifecycle of the binding to the packet-capture driver: which native
//! resources are held at each step, and what is to be released on failure or
//! close. The native calls themselves are made by the binding's owner.
use vstd::prelude::*;

verus! {

/// The driver entry points the binding resolves, in resolution order.
#[derive(Debug, Clone, Copy, PartialEq, Eq, Structural)]
pub enum EntryPoint {
    Open,
    Recv,
    Send,
    Close,
}

/// Why the capture binding is unavailable, or a session call failed.
#[derive(Debug, Clone, Copy, PartialEq, Eq, Structural)]
pub enum CaptureError {
    /// The driver's library could not be loaded.
    LibraryNotFound,
    /// The library lacks an entry point.
    MissingEntryPoint(EntryPoint),
    /// The driver refused to open a session, with the system's error code.
    OpenRefused(u32),
    /// The driver reported more bytes than the buffer holds.
    BadLength,
    /// A receive or send failed, with the system's error code.
    SessionIo(u32),
}

/// A failed open: the error, and whether the library must be unloaded.
#[derive(Debug, Clone, Copy, PartialEq, Eq, Structural)]
pub struct OpenFailure {
    pub error: CaptureError,
    pub unload_library: bool,
}

/// What closing is to release.
#[derive(Debug, Clone, Copy, PartialEq, Eq, Structural)]
pub struct CloseSteps {
    pub close_handle: bool,
    pub unload_library: bool,
}

/// The native resources a binding holds.
pub struct CaptureBinding {
    pub library_loaded: bool,
    pub entry_points_resolved: bool,
    pub handle_open: bool,
}

/// The first entry point whose resolution failed.
pub open spec fn first_missing(found: [bool; 4]) -> Option<EntryPoint> {
    if !found[0] {
        Some(EntryPoint::Open)
    } else if !found[1] {
        Some(EntryPoint::Recv)
    } else if !found[2] {
        Some(EntryPoint::Send)
    } else if !found[3] {
        Some(EntryPoint::Close)
    } else {
        None
    }
}

impl CaptureBinding {
    /// A binding that holds nothing.
    pub fn new() -> (r: Self)
        ensures
            !r.library_loaded && !r.entry_points_resolved && !r.handle_open,
    {
        CaptureBinding { library_loaded: false, entry_points_resolved: false, handle_open: false }
    }

    /// Records whether the library loaded. Nothing is held after a failure.
    pub fn on_library(&mut self, loaded: bool) -> (r: Result<(), OpenFailure>)
        requires
            !old(self).library_loaded && !old(self).handle_open,
        ensures
            final(self).library_loaded == loaded,
            !final(self).entry_points_resolved && !final(self).handle_open,
            loaded ==> r is Ok,
            !loaded ==> r == Err::<(), OpenFailure>(
                OpenFailure { error: CaptureError::LibraryNotFound, unload_library: false },
            ),
    {
        self.entry_points_resolved = false;
        self.handle_open = false;
        if loaded {
            self.library_loaded = true;
            Ok(())
        } else {
            self.library_loaded = false;
            Err(OpenFailure { error: CaptureError::LibraryNotFound, unload_library: false })
        }
    }

    /// Records which entry points resolved. One missing entry point fails the
    /// whole binding, and the library is to be unloaded.
    pub fn on_entry_points(&mut self, found: [bool; 4]) -> (r: Result<(), OpenFailure>)
        requires
            old(self).library_loaded && !old(self).handle_open,
        ensures
            !final(self).handle_open,
            first_missing(found) is None ==> r is Ok && final(self).library_loaded
                && final(self).entry_points_resolved,
            first_missing(found) is Some ==> r == Err::<(), OpenFailure>(
                OpenFailure {
                    error: CaptureError::MissingEntryPoint(first_missing(found)->Some_0),
                    unload_library: true,
                },
            ) && !final(self).library_loaded && !final(self).entry_points_resolved,
    {
        let missing = if !found[0] {
            Some(EntryPoint::Open)
        } else if !found[1] {
            Some(EntryPoint::Recv)
        } else if !found[2] {
            Some(EntryPoint::Send)
        } else if !found[3] {
            Some(EntryPoint::Close)
        } else {
            None
        };
        match missing {
            Some(e) => {
                self.library_loaded = false;
                self.entry_points_resolved = false;
                Err(OpenFailure { error: CaptureError::MissingEntryPoint(e), unload_library: true })
            },
            None => {
                self.entry_points_resolved = true;
                Ok(())
            },
        }
    }

    /// Records whether the driver opened a session; `error_code` is the
    /// system's code for a refusal. On a refusal the library is to be unloaded.
    pub fn on_open(&mut self, opened: bool, error_code: u32) -> (r: Result<(), OpenFailure>)
        requires
            old(self).library_loaded && old(self).entry_points_resolved && !old(self).handle_open,
        ensures
            opened ==> r is Ok && final(self).library_loaded && final(self).handle_open
                && final(self).entry_points_resolved,
            !opened ==> r == Err::<(), OpenFailure>(
                OpenFailure { error: CaptureError::OpenRefused(error_code), unload_library: true },
            ) && !final(self).library_loaded && !final(self).handle_open
                && !final(self).entry_points_resolved,
    {
        if opened {
            self.handle_open = true;
            Ok(())
        } else {
            self.library_loaded = false;
            self.entry_points_resolved = false;
            Err(OpenFailure { error: CaptureError::OpenRefused(error_code), unload_library: true })
        }
    }

    /// What closing is to release: the session handle if one is open, and
    /// the library if it is loaded. Afterwards nothing is held, so a second
    /// close releases nothing.
    pub fn close(&mut self) -> (r: CloseSteps)
        ensures
            r.close_handle == (old(self).library_loaded && old(self).handle_open),
            r.unload_library == old(self).library_loaded,
            !final(self).library_loaded && !final(self).handle_open
                && !final(self).entry_points_resolved,
    {
        let steps = CloseSteps {
            close_handle: self.library_loaded && self.handle_open,
            unload_library: self.library_loaded,
        };
        self.library_loaded = false;
        self.handle_open = false;
        self.entry_points_resolved = false;
        steps
    }
}

/// The length of a received packet: what the driver reported, if the buffer
/// holds that much.
pub fn filled_len(capacity: usize, reported: u32) -> (r: Result<usize, CaptureError>)
    ensures
        reported as nat <= capacity as nat ==> r == Ok::<usize, CaptureError>(reported as usize),
        reported as nat > capacity as nat ==> r == Err::<usize, CaptureError>(
            CaptureError::BadLength,
        ),
{
    if reported as u64 <= capacity as u64 {
        Ok(reported as usize)
    } else {
        Err(CaptureError::BadLength)
    }
}

} // verus!
