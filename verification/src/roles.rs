//! The roles of accessibility nodes, by UI Automation control type.
use crate::adapter::WindowsAdapter;
use vstd::prelude::*;

verus! {

pub const BUTTON_CONTROL: i32 = 50000;

pub const CHECK_BOX_CONTROL: i32 = 50002;

pub const COMBO_BOX_CONTROL: i32 = 50003;

pub const EDIT_CONTROL: i32 = 50004;

pub const HYPERLINK_CONTROL: i32 = 50005;

pub const LIST_ITEM_CONTROL: i32 = 50007;

pub const LIST_CONTROL: i32 = 50008;

pub const PROGRESS_BAR_CONTROL: i32 = 50012;

pub const SLIDER_CONTROL: i32 = 50015;

pub const TAB_CONTROL: i32 = 50018;

pub const TAB_ITEM_CONTROL: i32 = 50019;

pub const TEXT_CONTROL: i32 = 50020;

pub const TREE_CONTROL: i32 = 50023;

pub const TREE_ITEM_CONTROL: i32 = 50024;

/// The control types that have a role of their own.
pub open spec fn has_own_role(id: i32) -> bool {
    ||| id == BUTTON_CONTROL
    ||| id == EDIT_CONTROL
    ||| id == CHECK_BOX_CONTROL
    ||| id == HYPERLINK_CONTROL
    ||| id == LIST_ITEM_CONTROL
    ||| id == LIST_CONTROL
    ||| id == COMBO_BOX_CONTROL
    ||| id == TREE_ITEM_CONTROL
    ||| id == TREE_CONTROL
    ||| id == TAB_ITEM_CONTROL
    ||| id == TAB_CONTROL
    ||| id == SLIDER_CONTROL
    ||| id == PROGRESS_BAR_CONTROL
}

/// The role of an element with control type `id`.
pub open spec fn role_of(id: i32) -> Seq<char> {
    if id == BUTTON_CONTROL {
        "button"@
    } else if id == EDIT_CONTROL {
        "textfield"@
    } else if id == CHECK_BOX_CONTROL {
        "checkbox"@
    } else if id == HYPERLINK_CONTROL {
        "link"@
    } else if id == LIST_ITEM_CONTROL {
        "cell"@
    } else if id == LIST_CONTROL {
        "list"@
    } else if id == COMBO_BOX_CONTROL {
        "combobox"@
    } else if id == TREE_ITEM_CONTROL {
        "treeitem"@
    } else if id == TREE_CONTROL {
        "tree"@
    } else if id == TAB_ITEM_CONTROL {
        "tab"@
    } else if id == TAB_CONTROL {
        "tablist"@
    } else if id == SLIDER_CONTROL {
        "slider"@
    } else if id == PROGRESS_BAR_CONTROL {
        "progressbar"@
    } else {
        "group"@
    }
}

/// The role of an element with control type `id`.
pub(crate) fn role_name(id: i32) -> (role: String)
    ensures
        role@ == role_of(id),
{
    let role: &str = match id {
        BUTTON_CONTROL => "button",
        EDIT_CONTROL => "textfield",
        CHECK_BOX_CONTROL => "checkbox",
        HYPERLINK_CONTROL => "link",
        LIST_ITEM_CONTROL => "cell",
        LIST_CONTROL => "list",
        COMBO_BOX_CONTROL => "combobox",
        TREE_ITEM_CONTROL => "treeitem",
        TREE_CONTROL => "tree",
        TAB_ITEM_CONTROL => "tab",
        TAB_CONTROL => "tablist",
        SLIDER_CONTROL => "slider",
        PROGRESS_BAR_CONTROL => "progressbar",
        _ => "group",
    };
    role.to_owned()
}

impl WindowsAdapter {
    /// The role of an element with control type `id`.
    pub fn uia_role(&self, id: i32) -> (role: String)
        ensures
            role@ == role_of(id),
    {
        role_name(id)
    }
}

/// Control types with a role of their own are told apart by it, and from all others, which
/// are groups.
pub proof fn law_roles_distinct(a: i32, b: i32)
    requires
        has_own_role(a),
        a != b,
    ensures
        role_of(a) != role_of(b),
        !has_own_role(b) ==> role_of(b) == "group"@,
{
    reveal_strlit("button");
    reveal_strlit("textfield");
    reveal_strlit("checkbox");
    reveal_strlit("link");
    reveal_strlit("cell");
    reveal_strlit("list");
    reveal_strlit("combobox");
    reveal_strlit("treeitem");
    reveal_strlit("tree");
    reveal_strlit("tab");
    reveal_strlit("tablist");
    reveal_strlit("slider");
    reveal_strlit("progressbar");
    reveal_strlit("group");
    // The first three characters and the length tell all roles apart.
    let ra = role_of(a);
    let rb = role_of(b);
    assert(ra.len() != rb.len() || ra[0] != rb[0] || ra[1] != rb[1] || ra[2] != rb[2]);
}

/// Which control types have which role, by their numbers: each role belongs to one control
/// type, and all that is left is a group.
pub proof fn law_role_table(id: i32)
    ensures
        role_of(id) == "button"@ <==> id == 50000,
        role_of(id) == "checkbox"@ <==> id == 50002,
        role_of(id) == "combobox"@ <==> id == 50003,
        role_of(id) == "textfield"@ <==> id == 50004,
        role_of(id) == "link"@ <==> id == 50005,
        role_of(id) == "cell"@ <==> id == 50007,
        role_of(id) == "list"@ <==> id == 50008,
        role_of(id) == "progressbar"@ <==> id == 50012,
        role_of(id) == "slider"@ <==> id == 50015,
        role_of(id) == "tablist"@ <==> id == 50018,
        role_of(id) == "tab"@ <==> id == 50019,
        role_of(id) == "tree"@ <==> id == 50023,
        role_of(id) == "treeitem"@ <==> id == 50024,
        role_of(id) == "group"@ <==> id != 50000 && id != 50002 && id != 50003 && id != 50004 && id
            != 50005 && id != 50007 && id != 50008 && id != 50012 && id != 50015 && id != 50018
            && id != 50019 && id != 50023 && id != 50024,
{
    if has_own_role(id) {
        lemma_other_roles(id);
    } else {
        law_roles_distinct(BUTTON_CONTROL, id);
        law_roles_distinct(CHECK_BOX_CONTROL, id);
        law_roles_distinct(COMBO_BOX_CONTROL, id);
        law_roles_distinct(EDIT_CONTROL, id);
        law_roles_distinct(HYPERLINK_CONTROL, id);
        law_roles_distinct(LIST_ITEM_CONTROL, id);
        law_roles_distinct(LIST_CONTROL, id);
        law_roles_distinct(PROGRESS_BAR_CONTROL, id);
        law_roles_distinct(SLIDER_CONTROL, id);
        law_roles_distinct(TAB_CONTROL, id);
        law_roles_distinct(TAB_ITEM_CONTROL, id);
        law_roles_distinct(TREE_CONTROL, id);
        law_roles_distinct(TREE_ITEM_CONTROL, id);
    }
}

/// The role of one control type is that of no other.
proof fn lemma_other_roles(id: i32)
    requires
        has_own_role(id),
    ensures
        forall|other: i32| other != id ==> #[trigger] role_of(other) != role_of(id),
        role_of(id) != "group"@,
        role_of(BUTTON_CONTROL) == "button"@,
        role_of(CHECK_BOX_CONTROL) == "checkbox"@,
        role_of(COMBO_BOX_CONTROL) == "combobox"@,
        role_of(EDIT_CONTROL) == "textfield"@,
        role_of(HYPERLINK_CONTROL) == "link"@,
        role_of(LIST_ITEM_CONTROL) == "cell"@,
        role_of(LIST_CONTROL) == "list"@,
        role_of(PROGRESS_BAR_CONTROL) == "progressbar"@,
        role_of(SLIDER_CONTROL) == "slider"@,
        role_of(TAB_CONTROL) == "tablist"@,
        role_of(TAB_ITEM_CONTROL) == "tab"@,
        role_of(TREE_CONTROL) == "tree"@,
        role_of(TREE_ITEM_CONTROL) == "treeitem"@,
{
    assert forall|other: i32| other != id implies #[trigger] role_of(other) != role_of(id) by {
        law_roles_distinct(id, other);
    }
    assert(role_of(0) == "group"@);
}

} // verus!
