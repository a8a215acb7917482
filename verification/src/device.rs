//! Device connection description.
use vstd::prelude::*;
use crate::text::cat3;

verus! {

/// Default hostname of a tablet when connected over USB.
pub const DEFAULT_USB_HOST: &'static str = "10.11.99.1";

/// Default SSH user on the tablet.
pub const DEFAULT_SSH_USER: &'static str = "root";

/// Path on the tablet where documents are stored.
pub const XOCHITL_DATA_DIR: &'static str = "/home/root/.local/share/remarkable/xochitl";

/// A reachable device.
#[derive(Debug, PartialEq, Eq)]
pub struct Device {
    /// Hostname or IP address of the tablet.
    pub host: String,
    /// SSH user (normally `root`).
    pub user: String,
}

impl Default for Device {
    fn default() -> (r: Self)
        ensures
            r.host@ == DEFAULT_USB_HOST@,
            r.user@ == DEFAULT_SSH_USER@,
    {
        Device { host: DEFAULT_USB_HOST.to_owned(), user: DEFAULT_SSH_USER.to_owned() }
    }
}

impl Clone for Device {
    fn clone(&self) -> (r: Self)
        ensures
            r.host@ == self.host@,
            r.user@ == self.user@,
    {
        Device { host: self.host.clone(), user: self.user.clone() }
    }
}

impl Device {
    /// `user@host` string suitable for ssh invocations.
    pub fn ssh_target(&self) -> (r: String)
        ensures
            r@ == self.user@ + "@"@ + self.host@,
    {
        cat3(self.user.as_str(), "@", self.host.as_str())
    }
}

} // verus!
