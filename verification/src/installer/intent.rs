//! What the user asked for: product profile, target disk and images, host settings and
//! the first user.
use vstd::prelude::*;

verus! {

#[derive(Debug, Clone, PartialEq, Eq)]
pub struct InstallIntent {
    pub product_profile: ProductProfile,
    pub target_disk: String,
    /// source imgref
    pub target_image: String,
    /// target imgref
    pub update_image: String,
    pub hostname: String,
    pub locale: String,
    pub keymap: String,
    pub timezone: String,
    pub user: Option<UserIntent>,
}

#[derive(Debug, Clone, Copy, PartialEq, Eq)]
pub enum ProductProfile {
    DesktopSecureUefi,
    DesktopUefiNoTpm,
    ServerSecureUefi,
    ServerUefiNoTpm,
    Recovery,
}

#[derive(Debug, Clone, PartialEq, Eq)]
pub struct UserIntent {
    pub username: String,
    pub display_name: Option<String>,
    pub password_hash: Option<String>,
    pub ssh_authorized_keys: Vec<String>,
    pub groups: Vec<String>,
    pub make_admin: bool,
}

impl Default for ProductProfile {
    fn default() -> (r: Self)
        ensures
            r == ProductProfile::ServerSecureUefi,
    {
        ProductProfile::ServerSecureUefi
    }
}

impl InstallIntent {
    pub open spec fn is_default(self) -> bool {
        &&& self.product_profile == ProductProfile::ServerSecureUefi
        &&& self.target_disk@.len() == 0
        &&& self.target_image@.len() == 0
        &&& self.update_image@.len() == 0
        &&& self.hostname@.len() == 0
        &&& self.locale@.len() == 0
        &&& self.keymap@.len() == 0
        &&& self.timezone@.len() == 0
        &&& self.user is None
    }
}

impl Default for InstallIntent {
    fn default() -> (r: Self)
        ensures
            r.is_default(),
    {
        InstallIntent {
            product_profile: ProductProfile::default(),
            target_disk: String::new(),
            target_image: String::new(),
            update_image: String::new(),
            hostname: String::new(),
            locale: String::new(),
            keymap: String::new(),
            timezone: String::new(),
            user: None,
        }
    }
}

impl UserIntent {
    pub open spec fn is_default(self) -> bool {
        &&& self.username@.len() == 0
        &&& self.display_name is None
        &&& self.password_hash is None
        &&& self.ssh_authorized_keys@.len() == 0
        &&& self.groups@.len() == 0
        &&& !self.make_admin
    }
}

impl Default for UserIntent {
    fn default() -> (r: Self)
        ensures
            r.is_default(),
    {
        UserIntent {
            username: String::new(),
            display_name: None,
            password_hash: None,
            ssh_authorized_keys: Vec::new(),
            groups: Vec::new(),
            make_admin: false,
        }
    }
}

} // verus!
