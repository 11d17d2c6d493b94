//! One install of `<ns>/<name>[@<range>]` into the cache, as a sequence of
//! steps: the caller performs each step (list the cache directory, check a
//! file, ask the registry, download and write) and reports what happened;
//! `Installer` decides what comes next. A satisfying cached version is used
//! without touching the network; otherwise the newest non-yanked published
//! version that satisfies the range is downloaded.

use vstd::prelude::*;

use crate::install_store::{
    best_local_match, bytecode_path_spec, entry_versions, has_match, installed_versions, is_newest_match,
    is_range, lemma_newest_transfer, live_versions, opt_str, pick_remote, semver_req, InstallError,
    InstallStore, RegistryRef,
};
use crate::registry::{RegistryError, VersionSummary};
use crate::text::{opt_view, views};

verus! {

broadcast use vstd::string::group_string_axioms;

/// What the caller does next.
#[derive(Debug)]
pub enum InstallStep {
    /// List the files of the script's cache directory (none when it is missing).
    ListInstalled { dir: String },
    /// Check whether the cached file of `version` exists at `path`.
    CheckCached { version: String, path: String },
    /// Fetch the script's published versions from the registry.
    FetchVersions,
    /// Download `version`'s bytecode and write it to `path`.
    Download { version: String, path: String },
    /// The install is over: the version and its file, or why it failed.
    Done(Result<(String, String), InstallError>),
}

/// What the caller reports back.
#[derive(Debug)]
pub enum InstallEvent {
    /// The paths of the files in the cache directory.
    Listed(Vec<String>),
    /// Whether the cached file exists.
    Exists(bool),
    /// The published versions, or the registry's error.
    Fetched(Result<Vec<VersionSummary>, RegistryError>),
    /// Whether the download was written (the registry's or the write's error).
    Stored(Result<(), InstallError>),
}

/// Where an install stands.
#[derive(Debug)]
pub enum Stage {
    Listing,
    Checking { version: String, path: String },
    Fetching,
    Downloading { version: String, path: String },
    Finished,
}

/// One install in progress.
#[derive(Debug)]
pub struct Installer {
    store: InstallStore,
    reference: RegistryRef,
    stage: Stage,
}

impl Installer {
    /// Where the install stands.
    pub closed spec fn stage(&self) -> Stage {
        self.stage
    }

    /// The cache root.
    pub closed spec fn root(&self) -> Seq<char> {
        self.store.root_spec()
    }

    /// The reference being installed.
    pub closed spec fn reference(&self) -> (Seq<char>, Seq<char>, Option<Seq<char>>) {
        (self.reference.namespace@, self.reference.name@, opt_view(self.reference.range))
    }

    /// Start installing `reference` into `store`: first list the cache
    /// directory of the script.
    pub fn start(store: InstallStore, reference: RegistryRef) -> (r: (Installer, InstallStep))
        ensures
            r.0.stage() is Listing,
            r.0.root() == store.root_spec(),
            r.0.reference() == (reference.namespace@, reference.name@, opt_view(reference.range)),
            r.1 matches InstallStep::ListInstalled { dir } && dir@ == crate::paths::join_spec(
                crate::paths::join_spec(crate::paths::join_spec(store.root_spec(), "scripts"@), reference.namespace@),
                reference.name@,
            ),
    {
        let dir = store.script_dir(reference.namespace.as_str(), reference.name.as_str());
        (Installer { store, reference, stage: Stage::Listing }, InstallStep::ListInstalled { dir })
    }

    fn range(&self) -> (r: Option<&str>)
        ensures
            opt_str(r) == self.reference().2,
    {
        match &self.reference.range {
            Some(t) => Some(t.as_str()),
            None => None,
        }
    }

    /// The next step after `event`, which answers the current step.
    pub fn advance(&mut self, event: InstallEvent) -> (step: InstallStep)
        requires
            match (old(self).stage(), event) {
                (Stage::Listing, InstallEvent::Listed(_)) => true,
                (Stage::Checking { .. }, InstallEvent::Exists(_)) => true,
                (Stage::Fetching, InstallEvent::Fetched(_)) => true,
                (Stage::Downloading { .. }, InstallEvent::Stored(_)) => true,
                _ => false,
            },
        ensures
            final(self).root() == old(self).root(),
            final(self).reference() == old(self).reference(),
            ({
                let (ns, name, range) = old(self).reference();
                let root = old(self).root();
                match (old(self).stage(), event) {
                    (Stage::Listing, InstallEvent::Listed(entries)) => {
                        let vs = entry_versions(views(entries@));
                        if range is Some && !is_range(range.unwrap()) {
                            step matches InstallStep::Done(Err(InstallError::BadRange { range: rr, reason }))
                                && rr@ == range.unwrap() && semver_req(range.unwrap()) == Err::<(), Seq<char>>(reason@)
                                && final(self).stage() is Finished
                        } else if has_match(vs, range) {
                            step matches InstallStep::CheckCached { version, path }
                                && is_newest_match(vs, range, version@)
                                && path@ == bytecode_path_spec(root, ns, name, version@)
                                && (final(self).stage() matches Stage::Checking { version: v2, path: p2 }
                                && v2@ == version@ && p2@ == path@)
                        } else {
                            step is FetchVersions && final(self).stage() is Fetching
                        }
                    },
                    (Stage::Checking { version, path }, InstallEvent::Exists(found)) => if found {
                        step matches InstallStep::Done(Ok((v, p))) && v@ == version@ && p@ == path@
                            && final(self).stage() is Finished
                    } else {
                        step is FetchVersions && final(self).stage() is Fetching
                    },
                    (Stage::Fetching, InstallEvent::Fetched(Err(e))) =>
                        step matches InstallStep::Done(Err(InstallError::Registry(e2))) && e2 == e
                            && final(self).stage() is Finished,
                    (Stage::Fetching, InstallEvent::Fetched(Ok(published))) => {
                        let live = live_versions(published@);
                        if range is Some && !is_range(range.unwrap()) {
                            step matches InstallStep::Done(Err(InstallError::BadRange { .. })) && final(self).stage() is Finished
                        } else if has_match(live, range) {
                            step matches InstallStep::Download { version, path }
                                && is_newest_match(live, range, version@)
                                && path@ == bytecode_path_spec(root, ns, name, version@)
                                && (final(self).stage() matches Stage::Downloading { version: v2, path: p2 }
                                && v2@ == version@ && p2@ == path@)
                        } else {
                            step matches InstallStep::Done(Err(InstallError::NoMatchingVersion { namespace: n1, name: n2, range: rg }))
                                && n1@ == ns && n2@ == name && rg@ == match range { Some(t) => t, None => "*"@ }
                                && final(self).stage() is Finished
                        }
                    },
                    (Stage::Downloading { version, path }, InstallEvent::Stored(res)) => match res {
                        Ok(()) => step matches InstallStep::Done(Ok((v, p))) && v@ == version@ && p@ == path@
                            && final(self).stage() is Finished,
                        Err(e) => step == InstallStep::Done(Err(e)) && final(self).stage() is Finished,
                    },
                    _ => false,
                }
            }),
    {
        let mut stage = Stage::Finished;
        std::mem::swap(&mut stage, &mut self.stage);
        match (stage, event) {
            (Stage::Listing, InstallEvent::Listed(entries)) => {
                let installed = installed_versions(&entries);
                let range = self.range();
                match best_local_match(&installed, range) {
                    Err(e) => InstallStep::Done(Err(e)),
                    Ok(Some(v)) => {
                        proof {
                            lemma_newest_transfer(entry_versions(views(entries@)), views(installed@), opt_str(range));
                        }
                        let path = self.store.bytecode_path(self.reference.namespace.as_str(), self.reference.name.as_str(), v.as_str());
                        self.stage = Stage::Checking { version: v.clone(), path: path.clone() };
                        InstallStep::CheckCached { version: v, path }
                    },
                    Ok(None) => {
                        proof {
                            lemma_newest_transfer(entry_versions(views(entries@)), views(installed@), opt_str(range));
                        }
                        self.stage = Stage::Fetching;
                        InstallStep::FetchVersions
                    },
                }
            },
            (Stage::Checking { version, path }, InstallEvent::Exists(found)) => {
                if found {
                    InstallStep::Done(Ok((version, path)))
                } else {
                    self.stage = Stage::Fetching;
                    InstallStep::FetchVersions
                }
            },
            (Stage::Fetching, InstallEvent::Fetched(Err(e))) => InstallStep::Done(Err(InstallError::Registry(e))),
            (Stage::Fetching, InstallEvent::Fetched(Ok(published))) => {
                let range = self.range();
                match pick_remote(&published, self.reference.namespace.as_str(), self.reference.name.as_str(), range) {
                    Err(e) => InstallStep::Done(Err(e)),
                    Ok(v) => {
                        let path = self.store.bytecode_path(self.reference.namespace.as_str(), self.reference.name.as_str(), v.as_str());
                        self.stage = Stage::Downloading { version: v.clone(), path: path.clone() };
                        InstallStep::Download { version: v, path }
                    },
                }
            },
            (Stage::Downloading { version, path }, InstallEvent::Stored(res)) => match res {
                Ok(()) => InstallStep::Done(Ok((version, path))),
                Err(e) => InstallStep::Done(Err(e)),
            },
            (_, _) => InstallStep::FetchVersions,
        }
    }
}

} // verus!
