//! Launch-argument file notifier.
//!
//! A desktop shell is handed a list of command-line arguments, either at its
//! own start or forwarded from a second instance.  This library holds the
//! logic that decides what to do with them: pick the first argument that
//! names an existing regular markdown file, make its path absolute, and say
//! which event (and after what delay) announces it to the frontend.  The
//! surrounding shell performs the file-system probes and the delivery; it
//! hands plain values in and takes plain values out.

pub mod greet;
pub mod notify;
pub mod paths;
pub mod scan;
