//! The program's state: the repository of the open project, the selected
//! checkpoint, the registration, and the screen that is shown.
use vstd::prelude::*;
use crate::data_structures::Repo;
use crate::licensing::{Registration, RegistrationInfo, spec_validate};
use crate::view_directory::{DirectoryView, is_fresh_directory};
use crate::views::{HistoryView, RecoverView};

verus! {

/// The screen that is shown.
pub enum UIMenu {
    DirectorySelect(DirectoryView),
    Recover(RecoverView),
    History(HistoryView),
}

impl Default for UIMenu {
    fn default() -> (r: Self)
        ensures
            r matches UIMenu::DirectorySelect(v) && is_fresh_directory(v),
    {
        UIMenu::DirectorySelect(DirectoryView::default())
    }
}

pub struct UIData {
    pub menu: UIMenu,
}

impl Default for UIData {
    fn default() -> (r: Self)
        ensures
            r.menu matches UIMenu::DirectorySelect(v) && is_fresh_directory(v),
    {
        UIData { menu: UIMenu::default() }
    }
}

pub struct App {
    pub repo: Repo,
    pub selected: Option<usize>,
    pub registration: Option<RegistrationInfo>,
    pub registration_status: Option<Registration>,
    pub ui_data: UIData,
}

/// The program as it starts: no project, nothing selected, the start screen.
pub open spec fn is_fresh_app(a: App) -> bool {
    &&& a.repo@.commits.len() == 0
    &&& a.repo@.current is None
    &&& a.repo@.blobs == Map::<Seq<u8>, Seq<u8>>::empty()
    &&& a.selected is None
    &&& a.ui_data.menu matches UIMenu::DirectorySelect(v) && is_fresh_directory(v)
}

impl App {
    /// The program starting with the license found on the machine, if any,
    /// checked now under the product's public key `public_key`.  `None` when
    /// that check finds the public key unusable.
    pub fn new(license: Option<RegistrationInfo>, public_key: &[u8; 32]) -> (r: Option<Self>)
        ensures
            license is None ==> (r matches Some(a) && is_fresh_app(a) && a.registration is None
                && a.registration_status is None),
            license matches Some(info) ==> exists|t|
                match #[trigger] spec_validate(info, public_key@, t) {
                    None => r is None,
                    Some(status) => r matches Some(a) && is_fresh_app(a) && a.registration
                        == license && a.registration_status == Some(status),
                },
    {
        let status = match &license {
            Some(info) => match info.validate(public_key) {
                Some(s) => Some(s),
                None => return None,
            },
            None => None,
        };
        Some(
            App {
                repo: Repo::new(),
                selected: None,
                registration: license,
                registration_status: status,
                ui_data: UIData::default(),
            },
        )
    }

    /// The history screen selects the checkpoint the project is on until
    /// another one is picked.
    pub fn select_current_if_none(&mut self)
        ensures
            final(self).selected == if old(self).selected is None {
                old(self).repo@.current
            } else {
                old(self).selected
            },
            final(self).repo == old(self).repo,
            final(self).registration == old(self).registration,
            final(self).registration_status == old(self).registration_status,
            final(self).ui_data == old(self).ui_data,
    {
        if self.selected.is_none() {
            self.selected = self.repo.current_checkpoint;
        }
    }
}

} // verus!
