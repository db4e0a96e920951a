//! What the client remembers between runs: where its server is, and how
//! each repository is watched.

use vstd::prelude::*;
use crate::bus::{
    dropped, lemma_lookup_found, lemma_lookup_missing, lemma_put_found, lemma_put_missing, lookup,
    put,
};
use crate::text::same_text;

verus! {

/// How one repository is watched.
#[derive(Debug)]
pub struct RepoConfig {
    pub watch_directory: String,
    pub auto_connect: bool,
    pub track_modifications: bool,
}

/// The options of a repository as a value.
pub struct RepoConfigView {
    pub watch_directory: Seq<char>,
    pub auto_connect: bool,
    pub track_modifications: bool,
}

impl View for RepoConfig {
    type V = RepoConfigView;

    open spec fn view(&self) -> RepoConfigView {
        RepoConfigView {
            watch_directory: self.watch_directory@,
            auto_connect: self.auto_connect,
            track_modifications: self.track_modifications,
        }
    }
}

/// The options of a repository that has none yet.
pub open spec fn default_repo() -> RepoConfigView {
    RepoConfigView { watch_directory: Seq::empty(), auto_connect: false, track_modifications: false }
}

impl Default for RepoConfig {
    fn default() -> (config: RepoConfig)
        ensures
            config@ == default_repo(),
    {
        RepoConfig { watch_directory: String::new(), auto_connect: false, track_modifications: false }
    }
}

impl RepoConfig {
    /// A copy of the options.
    pub fn duplicate(&self) -> (copy: RepoConfig)
        ensures
            copy@ == self@,
    {
        RepoConfig {
            watch_directory: self.watch_directory.clone(),
            auto_connect: self.auto_connect,
            track_modifications: self.track_modifications,
        }
    }
}

/// What the client remembers between runs.
pub struct ClientConfig {
    pub server_address: String,
    pub server_storage_directory: String,
    pub repo_config: Vec<(String, RepoConfig)>,
}

/// The options of each repository, by name.
pub type RepoOptions = Seq<(Seq<char>, RepoConfigView)>;

/// The entries of `list` as values.
pub open spec fn option_views(list: Seq<(String, RepoConfig)>) -> RepoOptions {
    Seq::new(list.len(), |i: int| (list[i].0@, list[i].1@))
}

impl Default for ClientConfig {
    fn default() -> (config: ClientConfig)
        ensures
            config.server_address@ == Seq::<char>::empty(),
            config.server_storage_directory@ == Seq::<char>::empty(),
            config.repo_config@ == Seq::<(String, RepoConfig)>::empty(),
    {
        ClientConfig {
            server_address: String::new(),
            server_storage_directory: String::new(),
            repo_config: Vec::new(),
        }
    }
}

impl ClientConfig {
    /// The options of the repositories.
    pub open spec fn options(&self) -> RepoOptions {
        option_views(self.repo_config@)
    }

    /// Whether the client knows where to connect: a server address and a
    /// storage directory are set.
    pub fn is_complete(&self) -> (complete: bool)
        ensures
            complete == (self.server_address@.len() > 0 && self.server_storage_directory@.len() > 0),
    {
        !self.server_address.as_str().is_empty() && !self.server_storage_directory.as_str().is_empty()
    }

    /// The options of the repository `name`, if it has some.
    pub fn repo(&self, name: &str) -> (found: Option<RepoConfig>)
        ensures
            match found {
                Some(config) => lookup(self.options(), name@) == Some(config@),
                None => lookup(self.options(), name@) is None,
            },
    {
        let mut i: usize = 0;
        while i < self.repo_config.len()
            invariant
                i <= self.repo_config.len(),
                forall|k: int| 0 <= k < i ==> self.options()[k].0 != name@,
            decreases self.repo_config.len() - i,
        {
            if same_text(self.repo_config[i].0.as_str(), name) {
                proof {
                    assert(self.options()[i as int].0 == name@);
                    lemma_lookup_found(self.options(), name@, i as int);
                }
                return Some(self.repo_config[i].1.duplicate());
            }
            i += 1;
        }
        proof {
            lemma_lookup_missing(self.options(), name@);
        }
        None
    }

    /// Sets the options of the repository `name`.
    pub fn set_repo(&mut self, name: String, config: RepoConfig)
        ensures
            final(self).options() == put(old(self).options(), name@, config@),
            final(self).server_address == old(self).server_address,
            final(self).server_storage_directory == old(self).server_storage_directory,
    {
        let ghost before = self.options();
        let mut i: usize = 0;
        while i < self.repo_config.len()
            invariant
                i <= self.repo_config.len(),
                *self == *old(self),
                before == self.options(),
                forall|k: int| 0 <= k < i ==> before[k].0 != name@,
            decreases self.repo_config.len() - i,
        {
            if same_text(self.repo_config[i].0.as_str(), name.as_str()) {
                proof {
                    assert(before[i as int].0 == name@);
                    lemma_put_found(before, name@, config@, i as int);
                }
                self.repo_config.set(i, (name, config));
                proof {
                    assert(self.options() =~= before.update(i as int, (name@, config@)));
                }
                return ;
            }
            i += 1;
        }
        proof {
            lemma_put_missing(before, name@, config@);
        }
        self.repo_config.push((name, config));
        proof {
            assert(self.options() =~= before.push((name@, config@)));
        }
    }

    /// Gives the repository `name` the options of a new repository,
    /// unless it has options already.
    pub fn ensure_repo(&mut self, name: String)
        ensures
            final(self).options() == if lookup(old(self).options(), name@) is Some {
                old(self).options()
            } else {
                old(self).options().push((name@, default_repo()))
            },
            final(self).server_address == old(self).server_address,
            final(self).server_storage_directory == old(self).server_storage_directory,
    {
        match self.repo(name.as_str()) {
            Some(_) => {},
            None => {
                let ghost before = self.options();
                self.repo_config.push((name, RepoConfig::default()));
                proof {
                    assert(self.options() =~= before.push((name@, default_repo())));
                }
            },
        }
    }

    /// Forgets the options of the repository `name`.
    pub fn remove_repo(&mut self, name: &str)
        ensures
            final(self).options() == dropped(old(self).options(), name@),
            final(self).server_address == old(self).server_address,
            final(self).server_storage_directory == old(self).server_storage_directory,
    {
        let ghost all = self.options();
        let mut kept: Vec<(String, RepoConfig)> = Vec::new();
        let mut i: usize = 0;
        proof {
            assert(all.take(0) =~= Seq::<(Seq<char>, RepoConfigView)>::empty());
            reveal(Seq::filter);
        }
        while i < self.repo_config.len()
            invariant
                i <= self.repo_config.len(),
                *self == *old(self),
                all == self.options(),
                option_views(kept@) == dropped(all.take(i as int), name@),
            decreases self.repo_config.len() - i,
        {
            let ghost before = option_views(kept@);
            proof {
                let so_far = all.take(i as int);
                let now = all.take(i + 1);
                assert(now.drop_last() =~= so_far);
                assert(now.last() == all[i as int]);
                reveal(Seq::filter);
            }
            if !same_text(self.repo_config[i].0.as_str(), name) {
                kept.push((self.repo_config[i].0.clone(), self.repo_config[i].1.duplicate()));
                proof {
                    assert(option_views(kept@) =~= before.push(all[i as int]));
                }
            }
            i += 1;
        }
        proof {
            assert(all.take(self.repo_config.len() as int) =~= all);
        }
        self.repo_config = kept;
    }
}

} // verus!
