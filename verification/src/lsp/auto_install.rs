//! Automatic installation of missing language tooling.
//!
//! Several documents that need the same missing language may ask for its
//! installation at once. The set of languages being installed makes sure that
//! one of them installs and the others stand back.
//!
//! - [`InstallingLanguages`]: the languages whose installation is in progress
//! - [`InstallingLanguagesExt`]: the same set in the vocabulary of installs
//! - [`AutoInstallManager`]: the set together with the stream of install events

pub mod manager;

use crate::lsp::in_progress_set::InProgressSet;
pub use manager::{AutoInstallManager, InstallError, InstallEvent, InstallListener};
use vstd::prelude::*;

verus! {

/// The languages currently being installed.
pub type InstallingLanguages = InProgressSet<String>;

/// The vocabulary of installs for [`InstallingLanguages`].
pub trait InstallingLanguagesExt {
    /// The languages being installed.
    spec fn installing(&self) -> Set<Seq<char>>;

    /// The set is well formed.
    spec fn well_formed(&self) -> bool;

    /// Tries to start installing `language`. Returns `true` if this call
    /// started the install: the caller installs and calls
    /// [`finish_install`](InstallingLanguagesExt::finish_install) when done,
    /// whether the install succeeded or not. Returns `false` if the language
    /// was already being installed.
    fn try_start_install(&mut self, language: &str) -> (started: bool)
        requires
            old(self).well_formed(),
        ensures
            final(self).well_formed(),
            started == !old(self).installing().contains(language@),
            final(self).installing() == old(self).installing().insert(language@),
    ;

    /// Marks the installation of `language` as complete. Does nothing if the
    /// language was not being installed.
    fn finish_install(&mut self, language: &str)
        requires
            old(self).well_formed(),
        ensures
            final(self).well_formed(),
            final(self).installing() == old(self).installing().remove(language@),
            !old(self).installing().contains(language@) ==> final(self).installing() == old(
                self,
            ).installing(),
    ;
}

impl InstallingLanguagesExt for InstallingLanguages {
    open spec fn installing(&self) -> Set<Seq<char>> {
        self@
    }

    open spec fn well_formed(&self) -> bool {
        self.wf()
    }

    fn try_start_install(&mut self, language: &str) -> (started: bool) {
        self.try_start(&String::from_str(language))
    }

    fn finish_install(&mut self, language: &str) {
        self.finish(&String::from_str(language));
    }
}

} // verus!
