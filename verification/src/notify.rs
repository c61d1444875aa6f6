//! Desktop notifications when something gains a permanent permission.
use vstd::prelude::*;
use crate::attrib::{Identity, IdentityView};
use crate::risk::{self, lookup, Risk};
use crate::text::Text;

verus! {

/// A notification to raise.
pub struct Notification {
    pub app_name: &'static str,
    pub icon: &'static str,
    pub category: &'static str,
    pub summary: String,
    pub body: String,
    /// 2 is critical, 1 is normal.
    pub urgency: u8,
    /// 0 stays until it is closed; -1 leaves the time to the server.
    pub timeout: i32,
}

/// A notification as the contracts see it.
pub struct NotificationView {
    pub app_name: Text,
    pub icon: Text,
    pub category: Text,
    pub summary: Text,
    pub body: Text,
    pub urgency: u8,
    pub timeout: i32,
}

impl View for Notification {
    type V = NotificationView;

    open spec fn view(&self) -> NotificationView {
        NotificationView {
            app_name: self.app_name@,
            icon: self.icon@,
            category: self.category@,
            summary: self.summary@,
            body: self.body@,
            urgency: self.urgency,
            timeout: self.timeout,
        }
    }
}

/// The executable to show for a process.
pub open spec fn shown_executable(identity: IdentityView) -> Text {
    match identity.exe {
        Some(exe) => exe,
        None => "unknown executable"@,
    }
}

/// The notification of a grant. One for a high risk is critical and stays on
/// the screen until it is seen; any other goes away by itself.
pub open spec fn grant_notification(identity: IdentityView, table: Text, token: Text) -> NotificationView {
    let critical = risk::info(table).risk == Risk::High;
    NotificationView {
        app_name: "wayward"@,
        icon: "camera-web"@,
        category: "device"@,
        summary: identity.label() + " gained persistent access"@,
        body: risk::info(table).grants + "\n<i>"@ + shown_executable(identity) + "</i>\n\nToken "@
            + token + "\nRevoke with: wayward revoke "@ + token,
        urgency: if critical {
            2
        } else {
            1
        },
        timeout: if critical {
            0
        } else {
            (-1int) as i32
        },
    }
}

/// The notification of a grant that has just been observed.
pub fn grant(identity: &Identity, table: &str, token: &str) -> (r: Notification)
    ensures
        r@ == grant_notification(identity@, table@, token@),
{
    let info = lookup(table);
    let exe = match &identity.exe {
        Some(exe) => exe.clone(),
        None => "unknown executable".to_owned(),
    };
    let critical = info.risk == Risk::High;
    Notification {
        app_name: "wayward",
        icon: "camera-web",
        category: "device",
        summary: identity.label().concat(" gained persistent access"),
        body: info.grants.to_owned().concat("\n<i>").concat(exe.as_str()).concat(
            "</i>\n\nToken ",
        ).concat(token).concat("\nRevoke with: wayward revoke ").concat(token),
        urgency: if critical {
            2
        } else {
            1
        },
        timeout: if critical {
            0
        } else {
            -1
        },
    }
}

/// A grant raises a critical notification, which stays until it is closed,
/// exactly where the risk of its table is high.
pub proof fn law_high_risk_stays_on_screen(identity: IdentityView, table: Text, token: Text)
    ensures
        grant_notification(identity, table, token).urgency == 2 <==> risk::info(table).risk == Risk::High,
        grant_notification(identity, table, token).timeout == 0 <==> risk::info(table).risk == Risk::High,
{
}

/// A notification names who gained access and what it lets them do, shows the
/// executable, and says how to take it back: by the token, which stands last. It
/// is critical, and stays, for what exposes the screen, the camera, the devices,
/// the place or the controls of the machine.
#[verifier::rlimit(50)]
pub proof fn law_a_notification_says_enough(identity: IdentityView, table: Text, token: Text)
    ensures
        ({
            let n = grant_notification(identity, table, token);
            let exposed = table == "screencast"@ || table == "screenshot"@ || table == "camera"@ || table
                == "devices"@ || table == "location"@ || table == "remote-desktop"@;
            &&& identity.label().is_prefix_of(n.summary)
            &&& crate::split::occurs_in(n.body, risk::info(table).grants)
            &&& identity.exe matches Some(exe) ==> crate::split::occurs_in(n.body, exe)
            &&& identity.exe is None ==> crate::split::occurs_in(n.body, "unknown executable"@)
            &&& ("wayward revoke "@ + token).is_suffix_of(n.body)
            &&& n.urgency == if exposed {
                2u8
            } else {
                1u8
            }
            &&& n.timeout == if exposed {
                0int
            } else {
                -1int
            }
        }),
{
    broadcast use crate::split::group_occurs;

    let n = grant_notification(identity, table, token);
    risk::law_risk_of_each_table(table);
    let label = identity.label();
    assert(n.summary.take(label.len() as int) =~= label);
    reveal_strlit("wayward revoke ");
    reveal_strlit("\nRevoke with: wayward revoke ");
    assert("wayward revoke "@.len() == 15);
    assert("\nRevoke with: wayward revoke "@.len() == 29);
    let how = "\nRevoke with: wayward revoke "@;
    assert(how.skip(14) =~= "wayward revoke "@);
    let end = "wayward revoke "@ + token;
    assert(n.body.subrange(n.body.len() - end.len(), n.body.len() as int) =~= end);
}

} // verus!
