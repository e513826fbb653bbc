//! The commands that manage a profile: install, uninstall, status, settings
//! and peers.

use crate::cli::{ensure_compiled, names_shown, not_installable, InstallArgs, UninstallArgs};
use crate::config::{fault_text, ConfigError};
use crate::feature::{build_label, label_of, with_feature, Feature, FeatureSet, ParseFeatureError};
use crate::profile::{
    default_profile_path, listed_keys, Profile, ProfileError, Setting, SettingValue,
};
use crate::text::{
    after_prefix, begins, concat3, decimal, is_blank, join, joined, lowered, same, show, trimmed,
    views,
};
use vstd::prelude::*;
use vstd::string::StringExecFns;

verus! {

/// Why a command failed.
#[derive(Debug)]
pub enum CliError {
    Feature(ParseFeatureError),
    Profile(ProfileError),
    Config(ConfigError),
    Refused(String),
}

impl CliError {
    pub open spec fn text(&self) -> Seq<char> {
        match self {
            CliError::Feature(e) => "unknown feature '"@ + e@
                + "' (expected one of: cache, kv, pubsub, queue, stream)"@,
            CliError::Profile(e) => e.text(),
            CliError::Config(e) => fault_text(e@),
            CliError::Refused(m) => m@,
        }
    }

    /// The message shown for this error.
    pub fn message(&self) -> (s: String)
        ensures
            s@ == self.text(),
    {
        match self {
            CliError::Feature(e) => e.message(),
            CliError::Profile(e) => e.message(),
            CliError::Config(e) => e.message(),
            CliError::Refused(m) => m.clone(),
        }
    }
}

/// Where the profile lies: at the path given, else in the usual place.
pub fn profile_path(explicit: &Option<String>, home: Option<String>) -> (p: String)
    ensures
        p@ == match explicit {
            Some(e) => e@,
            None => crate::profile::profile_path(
                match home {
                    Some(h) => Some(h@),
                    None => None,
                },
            ),
        },
{
    match explicit {
        Some(e) => e.clone(),
        None => default_profile_path(home),
    }
}

/// The change of a setting that an option asks for: none where it is not
/// given.
pub open spec fn edit(key: Seq<char>, value: Option<String>) -> Seq<(Seq<char>, Seq<char>)> {
    match value {
        Some(v) => seq![(key, v@)],
        None => Seq::empty(),
    }
}

pub open spec fn edit_views(v: Seq<(&'static str, String)>) -> Seq<(Seq<char>, Seq<char>)> {
    v.map_values(|e: (&'static str, String)| (e.0@, e.1@))
}

fn push_edit(out: &mut Vec<(&'static str, String)>, key: &'static str, value: &Option<String>)
    ensures
        edit_views(final(out)@) == edit_views(old(out)@) + edit(key@, *value),
{
    let ghost before = edit_views(out@);
    match value {
        Some(v) => {
            out.push((key, v.clone()));
        },
        None => {},
    }
    assert(edit_views(out@) =~= before + edit(key@, *value));
}

impl InstallArgs {
    /// The changes of settings that the options ask for, in order.
    pub open spec fn edits(&self) -> Seq<(Seq<char>, Seq<char>)> {
        edit("region"@, self.region) + edit("http-bind"@, self.http_bind) + edit(
            "node.id"@,
            self.node_id,
        ) + edit("data-dir"@, self.data_dir) + edit("api-key"@, self.api_key) + (
        if self.replicate {
            seq![("replicate"@, "true"@)]
        } else {
            Seq::empty()
        }) + edit("replication.role"@, self.role) + edit("leader-addr"@, self.leader_addr) + (
        if self.peers@.len() > 0 {
            seq![("peers"@, joined(views(self.peers@), ","@))]
        } else {
            Seq::empty()
        }) + edit("write-mode"@, self.write_mode) + edit("storage.backend"@, self.storage) + edit(
            "remote-url"@,
            self.remote_url,
        ) + edit("remote-region"@, self.remote_region) + edit("remote-bucket"@, self.remote_bucket)
            + edit("remote-access-key"@, self.remote_access_key) + edit(
            "remote-secret-key"@,
            self.remote_secret_key,
        )
    }

    fn list_edits(&self) -> (out: Vec<(&'static str, String)>)
        ensures
            edit_views(out@) == self.edits(),
    {
        let mut out: Vec<(&'static str, String)> = Vec::new();
        push_edit(&mut out, "region", &self.region);
        assert(edit_views(out@) =~= edit("region"@, self.region));
        push_edit(&mut out, "http-bind", &self.http_bind);
        push_edit(&mut out, "node.id", &self.node_id);
        push_edit(&mut out, "data-dir", &self.data_dir);
        push_edit(&mut out, "api-key", &self.api_key);
        let ghost before = edit_views(out@);
        if self.replicate {
            out.push(("replicate", "true".to_owned()));
            assert(edit_views(out@) =~= before + seq![("replicate"@, "true"@)]);
        } else {
            assert(edit_views(out@) =~= before + Seq::empty());
        }
        push_edit(&mut out, "replication.role", &self.role);
        push_edit(&mut out, "leader-addr", &self.leader_addr);
        let ghost before = edit_views(out@);
        if self.peers.len() > 0 {
            out.push(("peers", join(self.peers.as_slice(), ",")));
            assert(edit_views(out@) =~= before + seq![("peers"@, joined(views(self.peers@), ","@))]);
        } else {
            assert(edit_views(out@) =~= before + Seq::empty());
        }
        push_edit(&mut out, "write-mode", &self.write_mode);
        push_edit(&mut out, "storage.backend", &self.storage);
        push_edit(&mut out, "remote-url", &self.remote_url);
        push_edit(&mut out, "remote-region", &self.remote_region);
        push_edit(&mut out, "remote-bucket", &self.remote_bucket);
        push_edit(&mut out, "remote-access-key", &self.remote_access_key);
        push_edit(&mut out, "remote-secret-key", &self.remote_secret_key);
        out
    }
}

/// Whether a change names a setting and a value that it takes.
pub open spec fn acceptable(e: (Seq<char>, Seq<char>)) -> bool {
    Setting::named(e.0) matches Some(s) && s.accepts(e.1) is Some
}

/// The first change of a list that is refused.
pub open spec fn first_refused(edits: Seq<(Seq<char>, Seq<char>)>) -> Option<int>
    decreases edits.len(),
{
    if edits.len() == 0 {
        None
    } else {
        match first_refused(edits.drop_last()) {
            Some(i) => Some(i),
            None => if acceptable(edits.last()) {
                None
            } else {
                Some(edits.len() - 1)
            },
        }
    }
}

/// What a setting is changed to by a list of changes: by the last that names
/// it.
pub open spec fn set_to(edits: Seq<(Seq<char>, Seq<char>)>, s: Setting) -> Option<SettingValue>
    decreases edits.len(),
{
    if edits.len() == 0 {
        None
    } else if Setting::named(edits.last().0) == Some(s) {
        s.accepts(edits.last().1)
    } else {
        set_to(edits.drop_last(), s)
    }
}

/// Whether a profile is another after a list of changes.
pub open spec fn edited(after: Profile, before: Profile, edits: Seq<(Seq<char>, Seq<char>)>) -> bool {
    &&& after.features@ == before.features@
    &&& forall|s: Setting| #[trigger]
        after.field(s) == match set_to(edits, s) {
            Some(v) => v,
            None => before.field(s),
        }
}

/// Whether an error is that of a refused change.
pub open spec fn is_refusal(e: ProfileError, edit: (Seq<char>, Seq<char>)) -> bool {
    match Setting::named(edit.0) {
        None => e matches ProfileError::UnknownKey(k) && k@ == edit.0,
        Some(s) => s.accepts(edit.1) is None && (e matches ProfileError::InvalidValue {
            key,
            reason,
        } && key@ == edit.0 && reason@ == s.expectation()),
    }
}

proof fn lemma_first_refused_stays(edits: Seq<(Seq<char>, Seq<char>)>, i: int)
    requires
        0 <= i <= edits.len(),
    ensures
        first_refused(edits.take(i)) is Some ==> first_refused(edits) == first_refused(
            edits.take(i),
        ),
    decreases edits.len() - i,
{
    if i < edits.len() {
        lemma_first_refused_stays(edits, i + 1);
        assert(edits.take(i + 1).drop_last() =~= edits.take(i));
    } else {
        assert(edits.take(i) =~= edits);
    }
}

fn apply(profile: &mut Profile, edits: &Vec<(&'static str, String)>) -> (r: Result<(), ProfileError>)
    ensures
        match r {
            Ok(()) => first_refused(edit_views(edits@)) is None && edited(
                *final(profile),
                *old(profile),
                edit_views(edits@),
            ),
            Err(e) => first_refused(edit_views(edits@)) matches Some(i) && is_refusal(
                e,
                edit_views(edits@)[i],
            ),
        },
{
    let ghost all = edit_views(edits@);
    let ghost start = *profile;
    let mut i: usize = 0;
    while i < edits.len()
        invariant
            i <= edits.len(),
            all == edit_views(edits@),
            first_refused(all.take(i as int)) is None,
            edited(*profile, start, all.take(i as int)),
        decreases edits.len() - i,
    {
        let ghost before = *profile;
        let ghost next = all.take(i + 1);
        assert(next.drop_last() =~= all.take(i as int));
        assert(next.last() == (edits@[i as int].0@, edits@[i as int].1@));
        match profile.set(edits[i].0, edits[i].1.as_str()) {
            Ok(()) => {
                assert forall|s: Setting| #[trigger] profile.field(s) == match set_to(next, s) {
                    Some(v) => v,
                    None => start.field(s),
                } by {
                    assert(before.field(s) == match set_to(all.take(i as int), s) {
                        Some(v) => v,
                        None => start.field(s),
                    });
                }
            },
            Err(e) => {
                proof {
                    lemma_first_refused_stays(all, i + 1);
                }
                return Err(e);
            },
        }
        i = i + 1;
    }
    assert(all.take(i as int) =~= all);
    Ok(())
}

/// Whether every change of a list names a setting.
pub open spec fn all_known(edits: Seq<(Seq<char>, Seq<char>)>) -> bool {
    forall|i: int| 0 <= i < edits.len() ==> Setting::named((#[trigger] edits[i]).0) is Some
}

proof fn lemma_known_after(front: Seq<(Seq<char>, Seq<char>)>, key: Seq<char>, value: Option<String>)
    requires
        all_known(front),
        Setting::named(key) is Some,
    ensures
        all_known(front + edit(key, value)),
{
    let all = front + edit(key, value);
    assert forall|i: int| 0 <= i < all.len() implies Setting::named((#[trigger] all[i]).0) is Some by {
        if i < front.len() {
            assert(all[i] == front[i]);
        }
    }
}

proof fn lemma_known_after_one(
    front: Seq<(Seq<char>, Seq<char>)>,
    given: bool,
    e: (Seq<char>, Seq<char>),
)
    requires
        all_known(front),
        Setting::named(e.0) is Some,
    ensures
        all_known(
            front + (if given {
                seq![e]
            } else {
                Seq::empty()
            }),
        ),
{
    let all = front + (if given {
        seq![e]
    } else {
        Seq::empty()
    });
    assert forall|i: int| 0 <= i < all.len() implies Setting::named((#[trigger] all[i]).0) is Some by {
        if i < front.len() {
            assert(all[i] == front[i]);
        }
    }
}

/// Every option of an installation stands for a setting: an installation is
/// refused for a value, never for a name.
#[verifier::rlimit(50)]
pub proof fn law_install_options_are_settings(args: InstallArgs)
    ensures
        all_known(args.edits()),
{
    let e = Seq::<(Seq<char>, Seq<char>)>::empty();
    lemma_known_after(e, "region"@, args.region);
    let e1 = e + edit("region"@, args.region);
    assert(e1 =~= edit("region"@, args.region));
    lemma_known_after(e1, "http-bind"@, args.http_bind);
    let e2 = e1 + edit("http-bind"@, args.http_bind);
    lemma_known_after(e2, "node.id"@, args.node_id);
    let e3 = e2 + edit("node.id"@, args.node_id);
    lemma_known_after(e3, "data-dir"@, args.data_dir);
    let e4 = e3 + edit("data-dir"@, args.data_dir);
    lemma_known_after(e4, "api-key"@, args.api_key);
    let e5 = e4 + edit("api-key"@, args.api_key);
    lemma_known_after_one(e5, args.replicate, ("replicate"@, "true"@));
    let e6 = e5 + (if args.replicate {
        seq![("replicate"@, "true"@)]
    } else {
        Seq::empty()
    });
    lemma_known_after(e6, "replication.role"@, args.role);
    let e7 = e6 + edit("replication.role"@, args.role);
    lemma_known_after(e7, "leader-addr"@, args.leader_addr);
    let e8 = e7 + edit("leader-addr"@, args.leader_addr);
    let peers = ("peers"@, joined(views(args.peers@), ","@));
    lemma_known_after_one(e8, args.peers@.len() > 0, peers);
    let e9 = e8 + (if args.peers@.len() > 0 {
        seq![peers]
    } else {
        Seq::empty()
    });
    lemma_known_after(e9, "write-mode"@, args.write_mode);
    let e10 = e9 + edit("write-mode"@, args.write_mode);
    lemma_known_after(e10, "storage.backend"@, args.storage);
    let e11 = e10 + edit("storage.backend"@, args.storage);
    lemma_known_after(e11, "remote-url"@, args.remote_url);
    let e12 = e11 + edit("remote-url"@, args.remote_url);
    lemma_known_after(e12, "remote-region"@, args.remote_region);
    let e13 = e12 + edit("remote-region"@, args.remote_region);
    lemma_known_after(e13, "remote-bucket"@, args.remote_bucket);
    let e14 = e13 + edit("remote-bucket"@, args.remote_bucket);
    lemma_known_after(e14, "remote-access-key"@, args.remote_access_key);
    let e15 = e14 + edit("remote-access-key"@, args.remote_access_key);
    lemma_known_after(e15, "remote-secret-key"@, args.remote_secret_key);
    let e16 = e15 + edit("remote-secret-key"@, args.remote_secret_key);
    assert(args.edits() == e16);
}

/// Whether a profile is the one that was loaded, or blank where there was
/// none.
pub open spec fn is_base(loaded: Result<Profile, ProfileError>, p: Profile) -> bool {
    match loaded {
        Ok(q) => p == q,
        Err(ProfileError::NotFound(_)) => p.is_blank_profile(),
        Err(_) => false,
    }
}

/// Whether loading failed for another reason than that there is no profile.
pub open spec fn is_broken(loaded: Result<Profile, ProfileError>, e: ProfileError) -> bool {
    loaded == Err::<Profile, ProfileError>(e) && !(e is NotFound)
}

/// A product that was installed, and the profile to keep.
#[derive(Debug)]
pub struct Installed {
    pub feature: Feature,
    pub is_new: bool,
    pub profile: Profile,
}

impl Installed {
    /// Whether this is what installing a product on a profile makes.
    pub open spec fn is_made_of(&self, base: Profile, args: InstallArgs) -> bool {
        &&& self.is_new == !base.features@.contains(self.feature)
        &&& self.profile.features@ == with_feature(base.features@, self.feature)
        &&& forall|s: Setting| #[trigger]
            self.profile.field(s) == match set_to(args.edits(), s) {
                Some(v) => v,
                None => base.field(s),
            }
    }
}

/// Installs a product, and changes the settings that were asked for.
pub fn install(
    loaded: Result<Profile, ProfileError>,
    args: &InstallArgs,
    compiled: &FeatureSet,
) -> (r: Result<Installed, CliError>)
    ensures
        match Feature::named(args.feature@) {
            None => r matches Err(CliError::Feature(e)) && e@ == lowered(trimmed(args.feature@)),
            Some(f) => if !compiled@.contains(f) {
                r matches Err(CliError::Refused(m)) && m@ == not_installable(f, compiled@)
            } else {
                match r {
                    Ok(i) => i.feature == f && first_refused(args.edits()) is None && exists|
                        p: Profile,
                    | #[trigger]
                        is_base(loaded, p) && i.is_made_of(p, *args),
                    Err(CliError::Profile(e)) => is_broken(loaded, e) || ((loaded is Ok
                        || loaded->Err_0 is NotFound) && (first_refused(args.edits()) matches Some(
                        k,
                    ) && is_refusal(e, args.edits()[k]))),
                    Err(_) => false,
                }
            },
        },
{
    let feature = match Feature::parse(args.feature.as_str()) {
        Ok(f) => f,
        Err(e) => {
            return Err(CliError::Feature(e));
        },
    };
    match ensure_compiled(feature, compiled) {
        Ok(()) => {},
        Err(m) => {
            return Err(CliError::Refused(m));
        },
    }
    let mut profile = match Profile::load_or_default(loaded) {
        Ok(p) => p,
        Err(e) => {
            return Err(CliError::Profile(e));
        },
    };
    let ghost base = profile;
    assert(is_base(loaded, base));
    let is_new = profile.features.insert(feature);
    let ghost with = profile;
    assert forall|s: Setting| #[trigger] with.field(s) == base.field(s) by {}
    let edits = args.list_edits();
    match apply(&mut profile, &edits) {
        Ok(()) => {},
        Err(e) => {
            return Err(CliError::Profile(e));
        },
    }
    let out = Installed { feature, is_new, profile };
    assert forall|s: Setting| #[trigger]
        out.profile.field(s) == match set_to(args.edits(), s) {
            Some(v) => v,
            None => base.field(s),
        } by {
        assert(with.field(s) == base.field(s));
    }
    assert(out.is_made_of(base, *args));
    Ok(out)
}

/// A bind address as a browser takes it: the wildcard address is this
/// machine.
pub open spec fn host_shown(bind: Seq<char>) -> Seq<char> {
    if begins(bind, "0.0.0.0"@) {
        "127.0.0.1"@ + bind.skip("0.0.0.0"@.len() as int)
    } else {
        bind
    }
}

pub fn display_host(bind: &str) -> (h: String)
    ensures
        h@ == host_shown(bind@),
{
    match after_prefix(bind, "0.0.0.0") {
        Some(rest) => "127.0.0.1".to_owned().concat(rest.as_str()),
        None => bind.to_owned(),
    }
}

/// A profile's number of peers, in words.
pub open spec fn peers_counted(p: Profile) -> Seq<char> {
    decimal(p.replication.peers@.len()) + " peer(s)"@
}

/// What is said of replication after an installation.
pub open spec fn replication_line(p: Profile) -> Seq<char> {
    "  replication: "@ + p.replication.role@ + " ("@ + (if p.replication.peers@.len() == 0 {
        "no peers yet"@
    } else {
        peers_counted(p)
    }) + ")"@ + (if p.replication.role@ == "follower"@ && p.replication.leader_addr@.len() == 0 {
        "  ⚠ set a leader: falcon config set leader-addr <url>"@
    } else {
        Seq::empty()
    })
}

fn show_replication(p: &Profile) -> (s: String)
    ensures
        s@ == replication_line(*p),
{
    let mut s = concat3("  replication: ", p.replication.role.as_str(), " (");
    if p.replication.peers.len() == 0 {
        s.append("no peers yet");
    } else {
        s.append(show(p.replication.peers.len() as u128).concat(" peer(s)").as_str());
    }
    s.append(")");
    let ghost before = s@;
    if same(p.replication.role.as_str(), "follower") && is_blank(&p.replication.leader_addr) {
        s.append("  ⚠ set a leader: falcon config set leader-addr <url>");
    } else {
        assert(s@ =~= before + Seq::empty());
    }
    s
}

/// The list that adding a line makes.
fn push_line(out: &mut Vec<String>, line: String)
    ensures
        views(final(out)@) == views(old(out)@).push(line@),
{
    let ghost before = views(out@);
    out.push(line);
    assert(views(out@) =~= before.push(line@));
}

fn no_lines() -> (out: Vec<String>)
    ensures
        views(out@) == Seq::<Seq<char>>::empty(),
{
    let out: Vec<String> = Vec::new();
    assert(views(out@) =~= Seq::empty());
    out
}

impl Installed {
    /// What is said after an installation, line by line.
    pub open spec fn said(&self, path: Seq<char>) -> Seq<Seq<char>> {
        let head = seq![
            (if self.is_new {
                "Installed "@
            } else {
                "Updated "@
            }) + self.feature.title() + " at "@ + path,
            "  "@ + self.feature.summary(),
        ];
        let middle = if self.profile.replication.enabled {
            head.push(replication_line(self.profile))
        } else {
            head
        };
        middle.push(Seq::empty()).push("Next:"@).push(
            "  falcon serve                       # run this node"@,
        ).push(
            "  open http://"@ + host_shown(self.profile.node.http_bind@) + "/        # the "@
                + self.feature.title() + " UI"@,
        )
    }

    pub fn report(&self, path: &str) -> (lines: Vec<String>)
        ensures
            views(lines@) == self.said(path@),
    {
        let mut out = no_lines();
        let verb = if self.is_new {
            "Installed "
        } else {
            "Updated "
        };
        push_line(&mut out, concat3(verb, self.feature.product_name(), " at ").concat(path));
        push_line(&mut out, "  ".to_owned().concat(self.feature.tagline()));
        if self.profile.replication.enabled {
            push_line(&mut out, show_replication(&self.profile));
        }
        push_line(&mut out, String::new());
        push_line(&mut out, "Next:".to_owned());
        push_line(&mut out, "  falcon serve                       # run this node".to_owned());
        push_line(
            &mut out,
            concat3(
                "  open http://",
                display_host(self.profile.node.http_bind.as_str()).as_str(),
                "/        # the ",
            ).concat(self.feature.product_name()).concat(" UI"),
        );
        assert(views(out@) =~= self.said(path@));
        out
    }
}

/// A product that was removed (`None` where it was not there), and the
/// profile to keep.
#[derive(Debug)]
pub struct Uninstalled {
    pub feature: Feature,
    pub kept: Option<Profile>,
}

/// Removes a product from a profile.
pub fn uninstall(loaded: Result<Profile, ProfileError>, args: &UninstallArgs) -> (r: Result<
    Uninstalled,
    CliError,
>)
    ensures
        match Feature::named(args.feature@) {
            None => r matches Err(CliError::Feature(e)) && e@ == lowered(trimmed(args.feature@)),
            Some(f) => match loaded {
                Err(e) => r == Err::<Uninstalled, CliError>(CliError::Profile(e)),
                Ok(p) => r matches Ok(u) && u.feature == f && match u.kept {
                    None => !p.features@.contains(f),
                    Some(q) => {
                        &&& p.features@.contains(f)
                        &&& q.features@ == p.features@.remove(p.features@.index_of_first(f)->0)
                        &&& q.node == p.node
                        &&& q.replication == p.replication
                        &&& q.storage == p.storage
                    },
                },
            },
        },
{
    let feature = match Feature::parse(args.feature.as_str()) {
        Ok(f) => f,
        Err(e) => {
            return Err(CliError::Feature(e));
        },
    };
    let mut profile = match loaded {
        Ok(p) => p,
        Err(e) => {
            return Err(CliError::Profile(e));
        },
    };
    if profile.features.remove(feature) {
        Ok(Uninstalled { feature, kept: Some(profile) })
    } else {
        Ok(Uninstalled { feature, kept: None })
    }
}

impl Uninstalled {
    pub fn report(&self, path: &str) -> (line: String)
        ensures
            line@ == if self.kept is Some {
                "Uninstalled "@ + self.feature.title() + " from "@ + path@
            } else {
                self.feature.title() + " was not installed"@
            },
    {
        if self.kept.is_some() {
            concat3("Uninstalled ", self.feature.product_name(), " from ").concat(path)
        } else {
            self.feature.product_name().to_owned().concat(" was not installed")
        }
    }
}

/// Removing a product that was just installed leaves the products that were
/// there.
pub proof fn law_uninstall_undoes_install(set: Seq<Feature>, f: Feature)
    requires
        !set.contains(f),
    ensures
        with_feature(set, f).remove(with_feature(set, f).index_of_first(f)->0) == set,
{
    let s = with_feature(set, f);
    assert(s.last() == f);
    s.index_of_first_ensures(f);
    let k = s.index_of_first(f)->0;
    if k < set.len() {
        assert(set[k] == f);
        assert(set.contains(f));
    }
    assert(s.remove(k) =~= set);
}

/// The first lines of a status: what the build is.
pub fn build_lines(compiled: &FeatureSet) -> (lines: Vec<String>)
    ensures
        views(lines@) == seq![
            "Build: "@ + label_of(compiled@),
            "  compiled products: "@ + names_shown(compiled@),
            Seq::empty(),
        ],
{
    let mut out = no_lines();
    push_line(&mut out, "Build: ".to_owned().concat(build_label(compiled).as_str()));
    push_line(
        &mut out,
        "  compiled products: ".to_owned().concat(compiled.display(", ").as_str()),
    );
    push_line(&mut out, String::new());
    assert(views(out@) =~= seq![
        "Build: "@ + label_of(compiled@),
        "  compiled products: "@ + names_shown(compiled@),
        Seq::empty(),
    ]);
    out
}

/// A line for each product of a list.
pub open spec fn product_lines(features: Seq<Feature>) -> Seq<Seq<char>> {
    features.map_values(|f: Feature| "    • "@ + f.title() + " — "@ + f.summary())
}

/// What a status says of a profile.
pub open spec fn profile_said(p: Profile, path: Seq<char>) -> Seq<Seq<char>> {
    let head = seq!["Profile: "@ + path];
    let products = if p.features@.len() == 0 {
        head.push("  (no products installed — run `falcon install <feature>`)"@)
    } else {
        head.push("  installed products:"@) + product_lines(p.features@)
    };
    products.push("  node:   id="@ + p.node.id@ + " region="@ + p.node.region@).push(
        "  http:   "@ + p.node.http_bind@,
    ).push(
        "  auth:   "@ + (if p.node.api_key@.len() == 0 {
            "off"@
        } else {
            "on"@
        }),
    ).push(
        "  repl:   "@ + (if p.replication.enabled {
            "on ("@ + p.replication.role@ + ", "@ + peers_counted(p) + ")"@
        } else {
            "off"@
        }),
    )
}

fn show_profile(p: &Profile, path: &str) -> (out: Vec<String>)
    ensures
        views(out@) == profile_said(*p, path@),
{
    let mut out = no_lines();
    push_line(&mut out, "Profile: ".to_owned().concat(path));
    let ghost head = seq!["Profile: "@ + path@];
    assert(views(out@) =~= head);
    if p.features.is_empty() {
        push_line(
            &mut out,
            "  (no products installed — run `falcon install <feature>`)".to_owned(),
        );
    } else {
        push_line(&mut out, "  installed products:".to_owned());
        let ghost top = views(out@);
        let features = p.features.iter();
        let mut i: usize = 0;
        assert(views(out@) =~= top + product_lines(features@.take(0)));
        while i < features.len()
            invariant
                i <= features.len(),
                views(out@) == top + product_lines(features@.take(i as int)),
            decreases features.len() - i,
        {
            let f = features[i];
            push_line(
                &mut out,
                concat3("    • ", f.product_name(), " — ").concat(f.tagline()),
            );
            assert(views(out@) =~= top + product_lines(features@.take(i + 1)));
            i = i + 1;
        }
        assert(features@.take(i as int) =~= p.features@);
    }
    push_line(
        &mut out,
        concat3("  node:   id=", p.node.id.as_str(), " region=").concat(p.node.region.as_str()),
    );
    push_line(&mut out, "  http:   ".to_owned().concat(p.node.http_bind.as_str()));
    let auth = if is_blank(&p.node.api_key) {
        "off"
    } else {
        "on"
    };
    push_line(&mut out, "  auth:   ".to_owned().concat(auth));
    let repl = if p.replication.enabled {
        let peers = show(p.replication.peers.len() as u128).concat(" peer(s)");
        concat3("on (", p.replication.role.as_str(), ", ").concat(peers.as_str()).concat(")")
    } else {
        "off".to_owned()
    };
    push_line(&mut out, "  repl:   ".to_owned().concat(repl.as_str()));
    assert(views(out@) =~= profile_said(*p, path@));
    out
}

/// The lines of a status after those of the build: what is installed, or how
/// to begin.
pub fn status(loaded: Result<Profile, ProfileError>, path: &str) -> (r: Result<
    Vec<String>,
    ProfileError,
>)
    ensures
        match loaded {
            Ok(p) => r matches Ok(lines) && views(lines@) == profile_said(p, path@),
            Err(ProfileError::NotFound(_)) => r matches Ok(lines) && views(lines@) == seq![
                "Profile: none yet at "@ + path@,
                "  run `falcon install <feature>` to create one"@,
            ],
            Err(e) => r == Err::<Vec<String>, ProfileError>(e),
        },
{
    match loaded {
        Ok(p) => Ok(show_profile(&p, path)),
        Err(ProfileError::NotFound(_)) => {
            let mut out = no_lines();
            push_line(&mut out, "Profile: none yet at ".to_owned().concat(path));
            push_line(&mut out, "  run `falcon install <feature>` to create one".to_owned());
            assert(views(out@) =~= seq![
                "Profile: none yet at "@ + path@,
                "  run `falcon install <feature>` to create one"@,
            ]);
            Ok(out)
        },
        Err(e) => Err(e),
    }
}

/// Changes one setting. Returns the profile to keep and what is said.
pub fn config_set(loaded: Result<Profile, ProfileError>, key: &str, value: &str) -> (r: Result<
    (Profile, String),
    ProfileError,
>)
    ensures
        match r {
            Ok(o) => acceptable((key@, value@)) && o.1@ == "set "@ + key@ + " = "@ + value@
                && exists|p: Profile| #[trigger]
                is_base(loaded, p) && o.0.changed(
                    p,
                    Setting::named(key@)->0,
                    (Setting::named(key@)->0).accepts(value@)->0,
                ),
            Err(e) => is_broken(loaded, e) || ((loaded is Ok || loaded->Err_0 is NotFound)
                && is_refusal(e, (key@, value@))),
        },
{
    let mut profile = match Profile::load_or_default(loaded) {
        Ok(p) => p,
        Err(e) => {
            return Err(e);
        },
    };
    assert(is_base(loaded, profile));
    match profile.set(key, value) {
        Ok(()) => Ok((profile, concat3("set ", key, " = ").concat(value))),
        Err(e) => Err(e),
    }
}

/// Shows one setting.
pub fn config_get(loaded: Result<Profile, ProfileError>, key: &str) -> (r: Result<String, CliError>)
    ensures
        match loaded {
            Err(e) => r == Err::<String, CliError>(CliError::Profile(e)),
            Ok(p) => match Setting::named(key@) {
                Some(s) => r matches Ok(v) && v@ == p.field(s).shown(),
                None => r matches Err(CliError::Refused(m)) && m@ == "unknown config key '"@ + key@
                    + "'"@,
            },
        },
{
    let profile = match loaded {
        Ok(p) => p,
        Err(e) => {
            return Err(CliError::Profile(e));
        },
    };
    match profile.get(key) {
        Some(v) => Ok(v),
        None => Err(CliError::Refused(concat3("unknown config key '", key, "'"))),
    }
}

/// What listing the settings of a profile shows.
pub open spec fn settings_said(p: Profile) -> Seq<Seq<char>> {
    listed_keys().map_values(
        |k: (Seq<char>, Setting)| k.0 + " = "@ + p.field(k.1).shown(),
    )
}

/// Lists every setting.
pub fn config_list(loaded: Result<Profile, ProfileError>) -> (r: Result<Vec<String>, ProfileError>)
    ensures
        match r {
            Ok(lines) => exists|p: Profile| #[trigger]
                is_base(loaded, p) && views(lines@) == settings_said(p),
            Err(e) => is_broken(loaded, e),
        },
{
    let profile = match Profile::load_or_default(loaded) {
        Ok(p) => p,
        Err(e) => {
            return Err(e);
        },
    };
    assert(is_base(loaded, profile));
    let entries = profile.entries();
    let mut out = no_lines();
    let mut i: usize = 0;
    assert(views(out@) =~= settings_said(profile).take(0));
    while i < entries.len()
        invariant
            i <= entries.len(),
            entries@.len() == listed_keys().len(),
            forall|j: int|
                0 <= j < entries@.len() ==> {
                    &&& (#[trigger] entries@[j]).0@ == listed_keys()[j].0
                    &&& entries@[j].1@ == profile.field(listed_keys()[j].1).shown()
                },
            views(out@) == settings_said(profile).take(i as int),
        decreases entries.len() - i,
    {
        push_line(&mut out, concat3(entries[i].0, " = ", entries[i].1.as_str()));
        assert(views(out@) =~= settings_said(profile).take(i + 1));
        i = i + 1;
    }
    assert(settings_said(profile).take(i as int) =~= settings_said(profile));
    Ok(out)
}

/// A change of the peers: what is said, and the profile to keep where it
/// changed.
#[derive(Debug)]
pub struct PeersChange {
    pub kept: Option<Profile>,
    pub line: String,
}

/// Whether two profiles differ in their replication settings at most.
pub open spec fn same_but_replication(p: Profile, q: Profile) -> bool {
    p.features == q.features && p.node == q.node && p.storage == q.storage
}

/// Whether two profiles have the same replication settings, peers and the
/// switch aside.
pub open spec fn same_replication_texts(p: Profile, q: Profile) -> bool {
    p.replication.role == q.replication.role && p.replication.grpc_bind == q.replication.grpc_bind
        && p.replication.leader_addr == q.replication.leader_addr && p.replication.write_mode
        == q.replication.write_mode
}

fn has_peer(peers: &Vec<String>, addr: &str) -> (r: bool)
    ensures
        r == views(peers@).contains(addr@),
{
    let mut i: usize = 0;
    while i < peers.len()
        invariant
            i <= peers.len(),
            forall|j: int| 0 <= j < i ==> (#[trigger] peers@[j])@ != addr@,
        decreases peers.len() - i,
    {
        if same(peers[i].as_str(), addr) {
            assert(views(peers@)[i as int] == addr@);
            return true;
        }
        i = i + 1;
    }
    assert forall|j: int| 0 <= j < views(peers@).len() implies views(peers@)[j] != addr@ by {
        assert(peers@[j]@ != addr@);
    }
    false
}

/// Whether a profile is another with a peer added, which turns replication
/// on.
pub open spec fn peer_added(q: Profile, p: Profile, addr: Seq<char>) -> bool {
    &&& same_but_replication(q, p)
    &&& same_replication_texts(q, p)
    &&& q.replication.enabled
    &&& views(q.replication.peers@) == views(p.replication.peers@).push(addr)
}

/// What adding a peer to a profile does.
pub open spec fn adds_peer(c: PeersChange, p: Profile, addr: Seq<char>) -> bool {
    if views(p.replication.peers@).contains(addr) {
        c.kept is None && c.line@ == "peer "@ + addr + " already present"@
    } else {
        (c.kept matches Some(q) && peer_added(q, p, addr)) && c.line@ == "added peer "@ + addr
            + " ("@ + decimal(p.replication.peers@.len() + 1) + " total)"@
    }
}

/// Adds a peer, where it is not one yet.
pub fn peers_add(loaded: Result<Profile, ProfileError>, addr: &str) -> (r: Result<
    PeersChange,
    ProfileError,
>)
    ensures
        match r {
            Ok(c) => exists|p: Profile| #[trigger] is_base(loaded, p) && adds_peer(c, p, addr@),
            Err(e) => is_broken(loaded, e),
        },
{
    let mut profile = match Profile::load_or_default(loaded) {
        Ok(p) => p,
        Err(e) => {
            return Err(e);
        },
    };
    let ghost base = profile;
    assert(is_base(loaded, base));
    if has_peer(&profile.replication.peers, addr) {
        let c = PeersChange { kept: None, line: concat3("peer ", addr, " already present") };
        assert(adds_peer(c, base, addr@));
        return Ok(c);
    }
    profile.replication.peers.push(addr.to_owned());
    profile.replication.enabled = true;
    assert(views(profile.replication.peers@) =~= views(base.replication.peers@).push(addr@));
    let count = show(profile.replication.peers.len() as u128);
    let line = concat3("added peer ", addr, " (").concat(count.as_str()).concat(" total)");
    let c = PeersChange { kept: Some(profile), line };
    assert(adds_peer(c, base, addr@));
    Ok(c)
}

/// A list without the occurrences of an item.
pub open spec fn without(list: Seq<Seq<char>>, item: Seq<char>) -> Seq<Seq<char>>
    decreases list.len(),
{
    if list.len() == 0 {
        Seq::empty()
    } else if list.last() == item {
        without(list.drop_last(), item)
    } else {
        without(list.drop_last(), item).push(list.last())
    }
}

proof fn lemma_without(list: Seq<Seq<char>>, item: Seq<char>)
    ensures
        without(list, item).len() <= list.len(),
        without(list, item).len() == list.len() <==> !list.contains(item),
        !list.contains(item) ==> without(list, item) == list,
        !without(list, item).contains(item),
    decreases list.len(),
{
    if list.len() > 0 {
        let front = list.drop_last();
        lemma_without(front, item);
        if list.last() == item {
            assert(list[list.len() - 1] == item);
            assert(list.contains(item));
        } else {
            if list.contains(item) {
                let k = list.index_of(item);
                assert(front[k] == item);
            }
            if front.contains(item) {
                let k = front.index_of(item);
                assert(list[k] == item);
            } else {
                assert(without(list, item) =~= list);
            }
            let w = without(front, item);
            if w.push(list.last()).contains(item) {
                let k = w.push(list.last()).index_of(item);
                assert(w[k] == item);
            }
        }
    }
}

fn take_out(peers: &Vec<String>, addr: &str) -> (out: Vec<String>)
    ensures
        views(out@) == without(views(peers@), addr@),
{
    let ghost all = views(peers@);
    let mut out = no_lines();
    let mut i: usize = 0;
    while i < peers.len()
        invariant
            i <= peers.len(),
            all == views(peers@),
            views(out@) == without(all.take(i as int), addr@),
        decreases peers.len() - i,
    {
        assert(all.take(i + 1).drop_last() =~= all.take(i as int));
        assert(all[i as int] == peers@[i as int]@);
        if !same(peers[i].as_str(), addr) {
            push_line(&mut out, peers[i].clone());
        }
        i = i + 1;
    }
    assert(all.take(i as int) =~= all);
    out
}

/// Removes a peer, where it is one.
pub fn peers_remove(loaded: Result<Profile, ProfileError>, addr: &str) -> (r: Result<
    PeersChange,
    ProfileError,
>)
    ensures
        match loaded {
            Err(e) => r == Err::<PeersChange, ProfileError>(e),
            Ok(p) => r matches Ok(c) && if views(p.replication.peers@).contains(addr@) {
                c.line@ == "removed peer "@ + addr@ && (c.kept matches Some(q)
                    && same_but_replication(q, p) && same_replication_texts(q, p)
                    && q.replication.enabled == p.replication.enabled && views(
                    q.replication.peers@,
                ) == without(views(p.replication.peers@), addr@))
            } else {
                c.kept is None && c.line@ == "peer "@ + addr@ + " was not in the list"@
            },
        },
{
    let mut profile = match loaded {
        Ok(p) => p,
        Err(e) => {
            return Err(e);
        },
    };
    let rest = take_out(&profile.replication.peers, addr);
    proof {
        lemma_without(views(profile.replication.peers@), addr@);
        assert(views(rest@).len() == rest@.len());
    }
    if rest.len() == profile.replication.peers.len() {
        Ok(PeersChange { kept: None, line: concat3("peer ", addr, " was not in the list") })
    } else {
        profile.replication.peers = rest;
        Ok(PeersChange { kept: Some(profile), line: "removed peer ".to_owned().concat(addr) })
    }
}

/// Removing a peer that was just added leaves the peers that were there.
pub proof fn law_peer_remove_undoes_add(peers: Seq<Seq<char>>, addr: Seq<char>)
    requires
        !peers.contains(addr),
    ensures
        without(peers.push(addr), addr) == peers,
{
    assert(peers.push(addr).drop_last() =~= peers);
    lemma_without(peers, addr);
}

/// A peer that was removed is no peer, however often it was listed.
pub proof fn law_removed_peer_is_gone(peers: Seq<Seq<char>>, addr: Seq<char>)
    ensures
        !without(peers, addr).contains(addr),
{
    lemma_without(peers, addr);
}

/// What listing the peers of a profile shows.
pub open spec fn peers_said(p: Profile) -> Seq<Seq<char>> {
    let head = seq![
        "replication: "@ + (if p.replication.enabled {
            "on"@
        } else {
            "off"@
        }) + " (role: "@ + p.replication.role@ + ", grpc: "@ + p.replication.grpc_bind@ + ")"@,
    ];
    let leader = if p.replication.leader_addr@.len() > 0 {
        head.push("leader: "@ + p.replication.leader_addr@)
    } else {
        head
    };
    if p.replication.peers@.len() == 0 {
        leader.push("peers: (none) — add one with `falcon peers add <host:7070>`"@)
    } else {
        leader.push("peers:"@) + views(p.replication.peers@).map_values(
            |a: Seq<char>| "  • "@ + a,
        )
    }
}

/// Lists the peers and the replication settings.
pub fn peers_list(loaded: Result<Profile, ProfileError>) -> (r: Result<Vec<String>, ProfileError>)
    ensures
        match r {
            Ok(lines) => exists|p: Profile| #[trigger]
                is_base(loaded, p) && views(lines@) == peers_said(p),
            Err(e) => is_broken(loaded, e),
        },
{
    let profile = match Profile::load_or_default(loaded) {
        Ok(p) => p,
        Err(e) => {
            return Err(e);
        },
    };
    assert(is_base(loaded, profile));
    let repl = &profile.replication;
    let mut out = no_lines();
    let switch = if repl.enabled {
        "on"
    } else {
        "off"
    };
    push_line(
        &mut out,
        concat3("replication: ", switch, " (role: ").concat(repl.role.as_str()).concat(
            ", grpc: ",
        ).concat(repl.grpc_bind.as_str()).concat(")"),
    );
    if !is_blank(&repl.leader_addr) {
        push_line(&mut out, "leader: ".to_owned().concat(repl.leader_addr.as_str()));
    }
    if repl.peers.len() == 0 {
        push_line(
            &mut out,
            "peers: (none) — add one with `falcon peers add <host:7070>`".to_owned(),
        );
    } else {
        push_line(&mut out, "peers:".to_owned());
        let ghost top = views(out@);
        let ghost shown = views(repl.peers@).map_values(|a: Seq<char>| "  • "@ + a);
        let mut i: usize = 0;
        assert(views(out@) =~= top + shown.take(0));
        while i < repl.peers.len()
            invariant
                i <= repl.peers.len(),
                shown == views(repl.peers@).map_values(|a: Seq<char>| "  • "@ + a),
                views(out@) == top + shown.take(i as int),
            decreases repl.peers.len() - i,
        {
            push_line(&mut out, "  • ".to_owned().concat(repl.peers[i].as_str()));
            assert(views(out@) =~= top + shown.take(i + 1));
            i = i + 1;
        }
        assert(shown.take(i as int) =~= shown);
    }
    assert(views(out@) =~= peers_said(profile));
    Ok(out)
}

/// Every option that is given is set to what it says.
pub proof fn law_every_option_is_set(args: InstallArgs)
    ensures
        ({
            let all = args.edits();
            &&& args.region matches Some(v) ==> all.contains(("region"@, v@))
            &&& args.http_bind matches Some(v) ==> all.contains(("http-bind"@, v@))
            &&& args.node_id matches Some(v) ==> all.contains(("node.id"@, v@))
            &&& args.data_dir matches Some(v) ==> all.contains(("data-dir"@, v@))
            &&& args.api_key matches Some(v) ==> all.contains(("api-key"@, v@))
            &&& args.replicate ==> all.contains(("replicate"@, "true"@))
            &&& args.role matches Some(v) ==> all.contains(("replication.role"@, v@))
            &&& args.leader_addr matches Some(v) ==> all.contains(("leader-addr"@, v@))
            &&& args.peers@.len() > 0 ==> all.contains(
                ("peers"@, joined(args.peers@.map_values(|p: String| p@), ","@)),
            )
            &&& args.write_mode matches Some(v) ==> all.contains(("write-mode"@, v@))
            &&& args.storage matches Some(v) ==> all.contains(("storage.backend"@, v@))
            &&& args.remote_url matches Some(v) ==> all.contains(("remote-url"@, v@))
            &&& args.remote_region matches Some(v) ==> all.contains(("remote-region"@, v@))
            &&& args.remote_bucket matches Some(v) ==> all.contains(("remote-bucket"@, v@))
            &&& args.remote_access_key matches Some(v) ==> all.contains(("remote-access-key"@, v@))
            &&& args.remote_secret_key matches Some(v) ==> all.contains(("remote-secret-key"@, v@))
        }),
{
    let e1 = edit("region"@, args.region);
    let e2 = e1 + edit("http-bind"@, args.http_bind);
    let e3 = e2 + edit("node.id"@, args.node_id);
    let e4 = e3 + edit("data-dir"@, args.data_dir);
    let e5 = e4 + edit("api-key"@, args.api_key);
    let replicate = if args.replicate {
        seq![("replicate"@, "true"@)]
    } else {
        Seq::empty()
    };
    let e6 = e5 + replicate;
    let e7 = e6 + edit("replication.role"@, args.role);
    let e8 = e7 + edit("leader-addr"@, args.leader_addr);
    assert(views(args.peers@) =~= args.peers@.map_values(|p: String| p@));
    let peers = if args.peers@.len() > 0 {
        seq![("peers"@, joined(views(args.peers@), ","@))]
    } else {
        Seq::empty()
    };
    let e9 = e8 + peers;
    let e10 = e9 + edit("write-mode"@, args.write_mode);
    let e11 = e10 + edit("storage.backend"@, args.storage);
    let e12 = e11 + edit("remote-url"@, args.remote_url);
    let e13 = e12 + edit("remote-region"@, args.remote_region);
    let e14 = e13 + edit("remote-bucket"@, args.remote_bucket);
    let e15 = e14 + edit("remote-access-key"@, args.remote_access_key);
    let all = e15 + edit("remote-secret-key"@, args.remote_secret_key);
    assert(all == args.edits());
    assert(within(all, all)) by {
        reveal(within);
    }
    lemma_part_of(all, e15, edit("remote-secret-key"@, args.remote_secret_key));
    lemma_part_of(all, e14, edit("remote-access-key"@, args.remote_access_key));
    lemma_part_of(all, e13, edit("remote-bucket"@, args.remote_bucket));
    lemma_part_of(all, e12, edit("remote-region"@, args.remote_region));
    lemma_part_of(all, e11, edit("remote-url"@, args.remote_url));
    lemma_part_of(all, e10, edit("storage.backend"@, args.storage));
    lemma_part_of(all, e9, edit("write-mode"@, args.write_mode));
    lemma_part_of(all, e8, peers);
    lemma_part_of(all, e7, edit("leader-addr"@, args.leader_addr));
    lemma_part_of(all, e6, edit("replication.role"@, args.role));
    lemma_part_of(all, e5, replicate);
    lemma_part_of(all, e4, edit("api-key"@, args.api_key));
    lemma_part_of(all, e3, edit("data-dir"@, args.data_dir));
    lemma_part_of(all, e2, edit("node.id"@, args.node_id));
    lemma_part_of(all, e1, edit("http-bind"@, args.http_bind));
    assert(Seq::<(Seq<char>, Seq<char>)>::empty() + e1 =~= e1);
    lemma_part_of(all, Seq::empty(), e1);
}

#[verifier::opaque]
spec fn within(part: Seq<(Seq<char>, Seq<char>)>, all: Seq<(Seq<char>, Seq<char>)>) -> bool {
    forall|e: (Seq<char>, Seq<char>)| #[trigger] part.contains(e) ==> all.contains(e)
}

proof fn lemma_part_of(
    all: Seq<(Seq<char>, Seq<char>)>,
    front: Seq<(Seq<char>, Seq<char>)>,
    part: Seq<(Seq<char>, Seq<char>)>,
)
    requires
        within(front + part, all),
    ensures
        within(front, all),
        part.len() > 0 ==> all.contains(part[0]),
{
    reveal(within);
    let both = front + part;
    assert forall|e: (Seq<char>, Seq<char>)| #[trigger] front.contains(e) implies all.contains(e) by {
        let k = front.index_of(e);
        assert(both[k] == e);
        assert(both.contains(e));
    }
    if part.len() > 0 {
        assert(both[front.len() as int] == part[0]);
        assert(both.contains(part[0]));
    }
}

/// Whether an option is given, as a number.
pub open spec fn one_of(o: Option<String>) -> int {
    if o is Some {
        1
    } else {
        0
    }
}

/// No option is set twice, and none that is not given.
pub proof fn law_nothing_else_is_set(args: InstallArgs)
    ensures
        args.edits().len() == one_of(args.region) + one_of(args.http_bind) + one_of(args.node_id)
            + one_of(args.data_dir) + one_of(args.api_key) + (if args.replicate {
            1int
        } else {
            0
        }) + one_of(args.role) + one_of(args.leader_addr) + (if args.peers@.len() > 0 {
            1int
        } else {
            0
        }) + one_of(args.write_mode) + one_of(args.storage) + one_of(args.remote_url) + one_of(
            args.remote_region,
        ) + one_of(args.remote_bucket) + one_of(args.remote_access_key) + one_of(
            args.remote_secret_key,
        ),
{
}

/// Of several edits of a setting the last decides, and what no edit names
/// keeps its value.
pub proof fn law_last_edit_decides(
    edits: Seq<(Seq<char>, Seq<char>)>,
    key: Seq<char>,
    value: Seq<char>,
    s: Setting,
)
    ensures
        set_to(Seq::empty(), s) is None,
        Setting::named(key) == Some(s) ==> set_to(edits.push((key, value)), s) == s.accepts(value),
        Setting::named(key) != Some(s) ==> set_to(edits.push((key, value)), s) == set_to(edits, s),
{
    assert(edits.push((key, value)).drop_last() =~= edits);
}

/// Edits are refused for the first that names no setting or gives a setting
/// what it does not take.
pub proof fn law_first_bad_edit_is_refused(edits: Seq<(Seq<char>, Seq<char>)>, i: int)
    ensures
        first_refused(edits) is None <==> forall|j: int|
            0 <= j < edits.len() ==> (Setting::named((#[trigger] edits[j]).0) matches Some(s)
                && s.accepts(edits[j].1) is Some),
        0 <= i < edits.len() && !acceptable(edits[i]) && (forall|j: int|
            0 <= j < i ==> acceptable(#[trigger] edits[j])) ==> first_refused(edits) == Some(i),
    decreases edits.len(),
{
    if edits.len() > 0 {
        let front = edits.drop_last();
        let last = edits.len() - 1;
        law_first_bad_edit_is_refused(front, i);
        assert forall|j: int| 0 <= j < front.len() implies front[j] == #[trigger] edits[j] by {}
        if first_refused(edits) is None {
            assert forall|j: int| 0 <= j < edits.len() implies acceptable(#[trigger] edits[j]) by {
                if j < last {
                    assert(acceptable(front[j]));
                }
            }
        }
        if forall|j: int|
            0 <= j < edits.len() ==> (Setting::named((#[trigger] edits[j]).0) matches Some(s)
                && s.accepts(edits[j].1) is Some) {
            assert(acceptable(edits[last]));
            assert forall|j: int| 0 <= j < front.len() implies acceptable(#[trigger] front[j]) by {
                assert(front[j] == edits[j]);
            }
        }
        if 0 <= i < edits.len() && !acceptable(edits[i]) && (forall|j: int|
            0 <= j < i ==> acceptable(#[trigger] edits[j])) {
            assert forall|j: int| 0 <= j < i && j < front.len() implies acceptable(
                #[trigger] front[j],
            ) by {
                assert(front[j] == edits[j]);
            }
            if i == last {
                assert forall|j: int| 0 <= j < front.len() implies (Setting::named(
                    (#[trigger] front[j]).0,
                ) matches Some(s) && s.accepts(front[j].1) is Some) by {
                    assert(acceptable(front[j]));
                }
            }
        }
    }
}

/// An installation works on the profile there is, or on a blank one, adds its
/// product once and sets what the options say.
pub proof fn law_installation(
    i: Installed,
    base: Profile,
    args: InstallArgs,
    loaded: Result<Profile, ProfileError>,
    e: ProfileError,
    s: Setting,
)
    ensures
        i.is_made_of(base, args) ==> {
            &&& i.is_new <==> !base.features@.contains(i.feature)
            &&& i.profile.features@ == (if base.features@.contains(i.feature) {
                base.features@
            } else {
                base.features@.push(i.feature)
            })
            &&& i.profile.field(s) == (match set_to(args.edits(), s) {
                Some(v) => v,
                None => base.field(s),
            })
        },
        is_base(loaded, base) <==> match loaded {
            Ok(q) => base == q,
            Err(ProfileError::NotFound(_)) => base.is_blank_profile(),
            Err(_) => false,
        },
        is_broken(loaded, e) <==> loaded == Err::<Profile, ProfileError>(e) && !(e is NotFound),
{
}

/// A refusal names the setting and says what it would take.
pub proof fn law_refusals_name_the_setting(e: ProfileError, key: Seq<char>, value: Seq<char>)
    requires
        is_refusal(e, (key, value)),
    ensures
        Setting::named(key) is None ==> e.text() == "unknown config key '"@ + key + "'"@,
        Setting::named(key) matches Some(s) ==> s.accepts(value) is None && e.text()
            == "invalid value for '"@ + key + "': "@ + s.expectation(),
{
}

/// An address on all interfaces is shown as the local one, and any other as it
/// is.
pub proof fn law_shown_address(rest: Seq<char>, bind: Seq<char>)
    ensures
        host_shown("0.0.0.0"@ + rest) == "127.0.0.1"@ + rest,
        !begins(bind, "0.0.0.0"@) ==> host_shown(bind) == bind,
{
    let all = "0.0.0.0"@ + rest;
    assert(all.take("0.0.0.0"@.len() as int) =~= "0.0.0.0"@);
    assert(all.skip("0.0.0.0"@.len() as int) =~= rest);
}

/// A report says whether the product is new, where the profile lies, how the
/// node replicates where it does, and where its page is.
pub proof fn law_report_of_an_installation(i: Installed, path: Seq<char>)
    ensures
        ({
            let lines = i.said(path);
            let on = i.profile.replication.enabled;
            &&& lines.len() == (if on {
                7int
            } else {
                6
            })
            &&& lines[0] == (if i.is_new {
                "Installed "@
            } else {
                "Updated "@
            }) + i.feature.title() + " at "@ + path
            &&& lines[1] == "  "@ + i.feature.summary()
            &&& on ==> lines[2] == replication_line(i.profile)
            &&& lines[lines.len() - 4].len() == 0
            &&& lines[lines.len() - 3] == "Next:"@
            &&& lines[lines.len() - 2] == "  falcon serve                       # run this node"@
            &&& lines.last() == "  open http://"@ + host_shown(i.profile.node.http_bind@)
                + "/        # the "@ + i.feature.title() + " UI"@
        }),
{
}

/// How replication is told of: the role, the peers, and a follower without a
/// leader that it needs one.
pub proof fn law_replication_in_words(p: Profile)
    ensures
        peers_counted(p) == decimal(p.replication.peers@.len()) + " peer(s)"@,
        ({
            let peers = if p.replication.peers@.len() == 0 {
                "no peers yet"@
            } else {
                decimal(p.replication.peers@.len()) + " peer(s)"@
            };
            let line = "  replication: "@ + p.replication.role@ + " ("@ + peers + ")"@;
            let lost = p.replication.role@ == "follower"@ && p.replication.leader_addr@.len() == 0;
            &&& lost ==> replication_line(p) == line
                + "  ⚠ set a leader: falcon config set leader-addr <url>"@
            &&& !lost ==> replication_line(p) == line
        }),
{
    let peers = if p.replication.peers@.len() == 0 {
        "no peers yet"@
    } else {
        decimal(p.replication.peers@.len()) + " peer(s)"@
    };
    let line = "  replication: "@ + p.replication.role@ + " ("@ + peers + ")"@;
    assert(line + Seq::<char>::empty() =~= line);
}

/// The status lists every product, and then the node, its address, whether it
/// asks for a key and how it replicates.
pub proof fn law_status_lists_everything(p: Profile, path: Seq<char>)
    ensures
        ({
            let lines = profile_said(p, path);
            let n = lines.len() as int;
            &&& lines[0] == "Profile: "@ + path
            &&& n == 6 + p.features@.len()
            &&& p.features@.len() == 0 ==> lines[1]
                == "  (no products installed — run `falcon install <feature>`)"@
            &&& p.features@.len() > 0 ==> lines[1] == "  installed products:"@
            &&& forall|i: int|
                0 <= i < p.features@.len() ==> #[trigger] lines[2 + i] == "    • "@
                    + p.features@[i].title() + " — "@ + p.features@[i].summary()
            &&& lines[n - 4] == "  node:   id="@ + p.node.id@ + " region="@ + p.node.region@
            &&& lines[n - 3] == "  http:   "@ + p.node.http_bind@
            &&& lines[n - 2] == "  auth:   "@ + (if p.node.api_key@.len() == 0 {
                "off"@
            } else {
                "on"@
            })
            &&& lines[n - 1] == "  repl:   "@ + (if p.replication.enabled {
                "on ("@ + p.replication.role@ + ", "@ + decimal(p.replication.peers@.len())
                    + " peer(s)"@ + ")"@
            } else {
                "off"@
            })
        }),
{
    let count = decimal(p.replication.peers@.len());
    assert("on ("@ + p.replication.role@ + ", "@ + (count + " peer(s)"@) + ")"@ =~= "on ("@
        + p.replication.role@ + ", "@ + count + " peer(s)"@ + ")"@);
}

/// The listing has a line for every setting, in the order of their names.
pub proof fn law_listing_has_every_setting(p: Profile)
    ensures
        settings_said(p).len() == listed_keys().len(),
        forall|i: int|
            0 <= i < listed_keys().len() ==> #[trigger] settings_said(p)[i] == listed_keys()[i].0
                + " = "@ + p.field(listed_keys()[i].1).shown(),
{
}

/// A peer that is not there yet is put at the end, and replication is then on;
/// one that is there is not put twice. Nothing else changes.
pub proof fn law_added_peer(c: PeersChange, p: Profile, addr: Seq<char>)
    requires
        adds_peer(c, p, addr),
    ensures
        views(p.replication.peers@).contains(addr) ==> c.kept is None && c.line@ == "peer "@ + addr
            + " already present"@,
        !views(p.replication.peers@).contains(addr) ==> {
            &&& c.line@ == "added peer "@ + addr + " ("@ + decimal(p.replication.peers@.len() + 1)
                + " total)"@
            &&& c.kept matches Some(q) && {
                &&& q.replication.enabled
                &&& views(q.replication.peers@) == views(p.replication.peers@).push(addr)
                &&& q.features == p.features && q.node == p.node && q.storage == p.storage
                &&& q.replication.role == p.replication.role && q.replication.grpc_bind
                    == p.replication.grpc_bind && q.replication.leader_addr
                    == p.replication.leader_addr && q.replication.write_mode
                    == p.replication.write_mode
            }
        },
{
}

/// A removed peer is gone, however often it was there, and the others stay in
/// their order.
pub proof fn law_other_peers_stay(peers: Seq<Seq<char>>, addr: Seq<char>)
    ensures
        without(peers, addr) == peers.filter(|a: Seq<char>| a != addr),
    decreases peers.len(),
{
    reveal(Seq::filter);
    if peers.len() > 0 {
        law_other_peers_stay(peers.drop_last(), addr);
    } else {
        assert(without(peers, addr) =~= peers.filter(|a: Seq<char>| a != addr));
    }
}

/// Profiles are alike but for replication where all else is the same, and in
/// the texts of replication where its role, addresses and write mode are.
pub proof fn law_alike_profiles(p: Profile, q: Profile)
    ensures
        same_but_replication(p, q) <==> p.features == q.features && p.node == q.node && p.storage
            == q.storage,
        same_replication_texts(p, q) <==> p.replication.role == q.replication.role
            && p.replication.grpc_bind == q.replication.grpc_bind && p.replication.leader_addr
            == q.replication.leader_addr && p.replication.write_mode == q.replication.write_mode,
{
}

/// The list of peers says whether replication is on, in which role and where,
/// the leader where there is one, and every peer.
pub proof fn law_peer_listing(p: Profile)
    ensures
        ({
            let lines = peers_said(p);
            let led: int = if p.replication.leader_addr@.len() > 0 {
                1
            } else {
                0
            };
            let n = p.replication.peers@.len();
            &&& lines.len() == 2 + led + n
            &&& lines[0] == "replication: "@ + (if p.replication.enabled {
                "on"@
            } else {
                "off"@
            }) + " (role: "@ + p.replication.role@ + ", grpc: "@ + p.replication.grpc_bind@ + ")"@
            &&& led == 1 ==> lines[1] == "leader: "@ + p.replication.leader_addr@
            &&& n == 0 ==> lines[1 + led]
                == "peers: (none) — add one with `falcon peers add <host:7070>`"@
            &&& n > 0 ==> lines[1 + led] == "peers:"@
            &&& forall|i: int|
                0 <= i < n ==> #[trigger] lines[2 + led + i] == "  • "@ + p.replication.peers@[i]@
        }),
{
}

/// What went wrong with a command, in words.
pub proof fn law_command_errors_in_words(e: CliError)
    ensures
        match e {
            CliError::Feature(f) => e.text() == "unknown feature '"@ + f@
                + "' (expected one of: cache, kv, pubsub, queue, stream)"@,
            CliError::Profile(p) => e.text() == p.text(),
            CliError::Config(c) => e.text() == fault_text(c@),
            CliError::Refused(m) => e.text() == m@,
        },
{
}

} // verus!
