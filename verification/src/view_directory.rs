//! The start screen: creating a project, opening one, and registering the
//! product.  The file pickers and the widgets live in the application; this
//! is the state of the screen and what each of its buttons decides.
use vstd::prelude::*;
use crate::data_structures::{Repo, Timestamp};
use crate::err::{Init, Reason, spec_init_message, spec_reason_message};
use crate::file_system::{ProjectRoot, SentinelFile, get_failed_restore_id};
use crate::licensing::{
    LicenseSaveResult, Registration, RegistrationInfo, license_read,
    spec_validate,
};
use crate::path::{PathView, spec_parent};
use crate::text::{spec_parse_usize, spec_trim};
use crate::ui::UIMenu;
use crate::views::{HistoryView, RecoverView, is_fresh_history, shows};

verus! {

/// The start screen.
pub struct DirectoryView {
    pub picked_dir: Option<ProjectRoot>,
    pub show_legal: bool,
    pub show_collision_warning: bool,
    pub generic_warning: Option<String>,
    pub registered: bool,
    pub registration_window: bool,
    pub license_input: String,
}

/// The start screen as the program opens it: nothing picked, no window open.
pub open spec fn is_fresh_directory(v: DirectoryView) -> bool {
    &&& v.picked_dir is None
    &&& !v.show_legal
    &&& !v.show_collision_warning
    &&& v.generic_warning is None
    &&& !v.registered
    &&& !v.registration_window
    &&& v.license_input@.len() == 0
}

impl Default for DirectoryView {
    fn default() -> (r: Self)
        ensures
            is_fresh_directory(r),
    {
        DirectoryView {
            picked_dir: None,
            show_legal: false,
            show_collision_warning: false,
            generic_warning: None,
            registered: false,
            registration_window: false,
            license_input: String::new(),
        }
    }
}

pub open spec fn expired_license_message() -> Seq<char> {
    "This license is expired."@
}

pub open spec fn invalid_license_message() -> Seq<char> {
    "Invalid license key. Please try again."@
}

pub open spec fn all_users_message() -> Seq<char> {
    "Successfuly registered for all users. Thank you for registering CheckpointPro!"@
}

pub open spec fn this_user_message() -> Seq<char> {
    "Successfuly registered for this user. Thank you for registering CheckpointPro!"@
}

pub open spec fn save_failed_message(e: Reason) -> Seq<char> {
    "Failed to save registration information. Reason: "@ + spec_reason_message(&e)
}

/// The checkpoint named by a restore log's contents, if any.
pub open spec fn logged_restore(log: Option<String>) -> Option<usize> {
    match log {
        None => None,
        Some(text) => spec_parse_usize(spec_trim(text@)),
    }
}

/// The project root of the project file at `sentinel`: the folder that holds
/// its data folder.
pub open spec fn root_of_sentinel(sentinel: PathView) -> PathView {
    spec_parent(spec_parent(sentinel)->0)->0
}

impl DirectoryView {
    /// The "Register" button at time `now`, under the product's public key
    /// `public_key`.  The pasted license text is read, and its error shown;
    /// else it is checked: a valid license marks the product registered and
    /// closes the window (the caller then saves the license text), an
    /// expired or invalid one gets a warning.  The result is the license that
    /// was read and its status, which is `None` when the public key is not a
    /// usable key.
    pub fn register_clicked(&mut self, public_key: &[u8; 32], now: Timestamp) -> (r: Option<
        (RegistrationInfo, Option<Registration>),
    >)
        ensures
            ({
                &&& r is None ==> exists|e: Reason|
                    #[trigger] license_read(
                        old(self).license_input@,
                        Err::<RegistrationInfo, Reason>(e),
                    ) && shows(final(self).generic_warning, spec_reason_message(&e))
                        && *final(self) == (DirectoryView {
                        generic_warning: final(self).generic_warning,
                        ..*old(self)
                    })
                &&& r matches Some((info, status)) ==> {
                    &&& license_read(old(self).license_input@, Ok::<RegistrationInfo, Reason>(info))
                    &&& status == spec_validate(info, public_key@, now)
                    &&& match status {
                        Some(Registration::Registered) => *final(self) == (DirectoryView {
                            registered: true,
                            registration_window: false,
                            ..*old(self)
                        }),
                        Some(Registration::Expired) => shows(
                            final(self).generic_warning,
                            expired_license_message(),
                        ) && *final(self) == (DirectoryView {
                            generic_warning: final(self).generic_warning,
                            ..*old(self)
                        }),
                        Some(Registration::Unregistered) => shows(
                            final(self).generic_warning,
                            invalid_license_message(),
                        ) && *final(self) == (DirectoryView {
                            generic_warning: final(self).generic_warning,
                            ..*old(self)
                        }),
                        None => *final(self) == *old(self),
                    }
                }
            }),
    {
        let read = RegistrationInfo::new(self.license_input.clone());
        assert(license_read(self.license_input@, read));
        let info = match read {
            Ok(i) => i,
            Err(e) => {
                self.generic_warning = Some(e.describe());
                return None;
            },
        };
        let status = info.validate_at(public_key, now);
        match status {
            Some(Registration::Registered) => {
                self.registered = true;
                self.registration_window = false;
            },
            Some(Registration::Expired) => {
                self.generic_warning = Some(String::from_str("This license is expired."));
            },
            Some(Registration::Unregistered) => {
                self.generic_warning = Some(
                    String::from_str("Invalid license key. Please try again."),
                );
            },
            None => {},
        }
        Some((info, status))
    }

    /// What saving the license text did: where it went, or why it failed.
    pub fn license_saved(&mut self, result: Result<LicenseSaveResult, Reason>)
        ensures
            match result {
                Ok(LicenseSaveResult::MachineWide) => shows(
                    final(self).generic_warning,
                    all_users_message(),
                ),
                Ok(LicenseSaveResult::UserOnly) => shows(
                    final(self).generic_warning,
                    this_user_message(),
                ),
                Err(e) => shows(final(self).generic_warning, save_failed_message(e)),
            },
            *final(self) == (DirectoryView {
                generic_warning: final(self).generic_warning,
                ..*old(self)
            }),
    {
        let message = match result {
            Ok(LicenseSaveResult::MachineWide) => String::from_str(
                "Successfuly registered for all users. Thank you for registering CheckpointPro!",
            ),
            Ok(LicenseSaveResult::UserOnly) => String::from_str(
                "Successfuly registered for this user. Thank you for registering CheckpointPro!",
            ),
            Err(e) => {
                let mut m = String::from_str("Failed to save registration information. Reason: ");
                m.append(e.describe().as_str());
                m
            },
        };
        self.generic_warning = Some(message);
    }

    /// What creating a project at `root` did: the history screen of the new
    /// project opens; a folder that already holds a project gets the
    /// collision warning; another error is shown.
    pub fn project_created(&mut self, root: ProjectRoot, result: Result<(), Init>) -> (r: Option<
        HistoryView,
    >)
        ensures
            match result {
                Ok(()) => (r matches Some(h) && is_fresh_history(h, root@)) && (final(self).picked_dir matches Some(p) && p@ == root@) && *final(self) == (DirectoryView {
                    picked_dir: final(self).picked_dir,
                    ..*old(self)
                }),
                Err(e) => r is None && if e is ProjectAlreadyExists {
                    *final(self) == (DirectoryView { show_collision_warning: true, ..*old(self) })
                } else {
                    shows(final(self).generic_warning, spec_init_message(&e)) && *final(self) == (
                    DirectoryView { generic_warning: final(self).generic_warning, ..*old(self) })
                },
            },
    {
        match result {
            Ok(()) => {
                self.picked_dir = Some(root.clone());
                Some(HistoryView::new(root))
            },
            Err(Init::ProjectAlreadyExists) => {
                self.show_collision_warning = true;
                None
            },
            Err(e) => {
                self.generic_warning = Some(e.describe());
                None
            },
        }
    }

    /// What opening the project whose project file is `sentinel` found: the
    /// repository as loading it gave (its error is shown), and the contents
    /// of the restore log, if there is one.  The repository becomes the
    /// current one; a restore that did not finish opens the recovery screen
    /// on its checkpoint, else the history screen opens.
    pub fn project_opened(
        &mut self,
        repo: &mut Repo,
        sentinel: &SentinelFile,
        loaded: Result<Repo, Reason>,
        restore_log: Option<String>,
    ) -> (r: Option<UIMenu>)
        requires
            sentinel@.parts.len() >= 2,
        ensures
            match loaded {
                Err(e) => r is None && *final(repo) == *old(repo) && shows(
                    final(self).generic_warning,
                    spec_reason_message(&e),
                ) && *final(self) == (DirectoryView {
                    generic_warning: final(self).generic_warning,
                    ..*old(self)
                }),
                Ok(l) => *final(repo) == l && *final(self) == *old(self) && match logged_restore(
                    restore_log,
                ) {
                    Some(c) => r matches Some(UIMenu::Recover(v)) && v.commit == c
                        && v.project_root@ == root_of_sentinel(sentinel@)
                        && v.generic_warning is None,
                    None => r matches Some(UIMenu::History(h)) && is_fresh_history(
                        h,
                        root_of_sentinel(sentinel@),
                    ),
                },
            },
    {
        match loaded {
            Err(e) => {
                self.generic_warning = Some(e.describe());
                None
            },
            Ok(l) => {
                *repo = l;
                let root = sentinel.project_root();
                match get_failed_restore_id(restore_log) {
                    Some(commit) => Some(UIMenu::Recover(RecoverView::new(commit, root))),
                    None => Some(UIMenu::History(HistoryView::new(root))),
                }
            },
        }
    }
}

} // verus!
