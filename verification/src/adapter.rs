//! The adapter itself, and the requests that need nothing else.
use crate::error::AdapterError;
use crate::ident::parse_window_id;
use crate::listing::WindowInfo;
use crate::node::TreeOptions;
use crate::walk::TreeWalk;
use vstd::prelude::*;

verus! {

/// The adapter for Windows desktops.
pub struct WindowsAdapter;

/// Whether the adapter may look at the desktop and act on it.
#[derive(Debug, Clone, Copy, PartialEq, Eq)]
pub enum PermissionStatus {
    Granted,
    Denied,
}

/// An element of the automation interface, by its address; zero stands for none.
#[derive(Debug, Clone, Copy, PartialEq, Eq)]
pub struct NativeHandle {
    pub raw: usize,
}

/// Why the tree of a window could not be had.
#[derive(Debug, PartialEq, Eq)]
pub enum TreeFault {
    /// The automation interface could not be created.
    Automation(String),
    /// It knows no element for the window.
    Element(String),
}

/// The text that an error carries for a fault.
pub open spec fn fault_text(fault: TreeFault) -> Seq<char> {
    match fault {
        TreeFault::Automation(reason) => "COM: "@ + reason@,
        TreeFault::Element(reason) => "UIA: "@ + reason@,
    }
}

impl WindowsAdapter {
    /// An adapter.
    pub fn new() -> (adapter: WindowsAdapter)
        ensures
            adapter == WindowsAdapter,
    {
        WindowsAdapter
    }

    /// Windows asks for no permission.
    pub fn check_permissions(&self) -> (status: PermissionStatus)
        ensures
            status == PermissionStatus::Granted,
    {
        PermissionStatus::Granted
    }

    /// The handle of the window whose tree is wanted, and the walk that visits the tree.
    pub fn get_tree(&self, win: &WindowInfo, opts: &TreeOptions) -> (r: Result<
        (usize, TreeWalk),
        AdapterError,
    >)
        ensures
            match crate::ident::handle_of(win.id@) {
                Some(handle) => r matches Ok(target) && target.0 == handle && target.1@
                    == crate::walk::start(*opts, 0),
                None => r matches Err(e) && e@ == "get_tree: bad id"@,
            },
    {
        match parse_window_id(win.id.as_str()) {
            Some(handle) => Ok((handle, TreeWalk::new(*opts, 0))),
            None => Err(AdapterError::not_supported("get_tree: bad id")),
        }
    }

    /// The error for a tree that could not be had.
    pub fn tree_error(&self, fault: TreeFault) -> (error: AdapterError)
        ensures
            error@ == fault_text(fault),
    {
        let mut text: String = match &fault {
            TreeFault::Automation(_) => "COM: ".to_owned(),
            TreeFault::Element(_) => "UIA: ".to_owned(),
        };
        match &fault {
            TreeFault::Automation(reason) => text.append(reason.as_str()),
            TreeFault::Element(reason) => text.append(reason.as_str()),
        }
        AdapterError::NotSupported(text)
    }

    /// Elements cannot be found again from a reference.
    pub fn resolve_element<E>(&self, _entry: &E) -> (r: Result<NativeHandle, AdapterError>)
        ensures
            r matches Err(e) && e@ == "resolve_element: not yet implemented"@,
    {
        Err(AdapterError::not_supported("resolve_element: not yet implemented"))
    }
}

impl Default for WindowsAdapter {
    fn default() -> (adapter: WindowsAdapter)
        ensures
            adapter == WindowsAdapter,
    {
        WindowsAdapter::new()
    }
}

/// The error for a tree that could not be had names what failed, and then why.
pub proof fn law_fault_text(reason: String)
    ensures
        fault_text(TreeFault::Automation(reason)) == seq!['C', 'O', 'M', ':', ' '] + reason@,
        fault_text(TreeFault::Element(reason)) == seq!['U', 'I', 'A', ':', ' '] + reason@,
{
    reveal_strlit("COM: ");
    reveal_strlit("UIA: ");
    assert("COM: "@ == seq!['C', 'O', 'M', ':', ' ']);
    assert("UIA: "@ == seq!['U', 'I', 'A', ':', ' ']);
}

} // verus!
