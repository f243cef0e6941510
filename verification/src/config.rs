//! Settings: where the settings file is, what the command line asks for, and
//! which Discord targets are configured.
use vstd::prelude::*;
use crate::offers::opt_text;

verus! {

/// The name of the settings file that is searched for.
pub const DEFAULT_CONFIG_FILE_NAME: &'static str = "settings.toml";

/// The settings of the notifier.
pub struct Config {
    pub discord: DiscordConfig,
}

/// The Discord settings.
pub struct DiscordConfig {
    pub webhook_url: Option<String>,
}

impl Default for DiscordConfig {
    fn default() -> (r: Self)
        ensures
            r.webhook_url is None,
    {
        DiscordConfig { webhook_url: None }
    }
}

impl Default for Config {
    fn default() -> (r: Self)
        ensures
            r.discord.webhook_url is None,
    {
        Config { discord: DiscordConfig { webhook_url: None } }
    }
}

/// The settings in use and the file they came from, if any.
pub struct ConfigLoad {
    pub path: Option<String>,
    pub config: Config,
}

/// A Discord channel to announce to, under an id by which its announcements
/// are recorded.
pub struct DiscordTarget {
    pub id: String,
    pub webhook_url: String,
}

/// The id of the target that the webhook of the settings file stands for.
pub open spec fn default_target_id() -> Seq<char> {
    "default"@
}

impl DiscordConfig {
    /// The configured targets: the webhook, when there is one, as the target
    /// `default`.
    pub fn targets(&self) -> (r: Vec<DiscordTarget>)
        ensures
            match self.webhook_url {
                Some(url) => r@.len() == 1 && r@[0].id@ == default_target_id() && r@[0].webhook_url@
                    == url@,
                None => r@.len() == 0,
            },
    {
        let mut out: Vec<DiscordTarget> = Vec::new();
        if let Some(url) = &self.webhook_url {
            out.push(DiscordTarget { id: String::from_str("default"), webhook_url: url.clone() });
        }
        out
    }
}

/// Why a set of targets cannot be used.
pub enum TargetError {
    NoTargets,
    DuplicateTarget(String),
}

impl TargetError {
    /// The text of the error.
    pub fn message(&self) -> (r: String)
        ensures
            r@ == match self {
                TargetError::NoTargets => "no discord.targets configured"@,
                TargetError::DuplicateTarget(id) => "duplicate discord target id configured: "@
                    + id@,
            },
    {
        match self {
            TargetError::NoTargets => String::from_str("no discord.targets configured"),
            TargetError::DuplicateTarget(id) => {
                let mut s = String::from_str("duplicate discord target id configured: ");
                s.append(id.as_str());
                s
            },
        }
    }
}

/// The id at position `j` was already used at an earlier position.
pub open spec fn repeats_earlier(ids: Seq<Seq<char>>, j: int) -> bool {
    exists|i: int| 0 <= i < j && ids[i] == #[trigger] ids[j]
}

/// The ids of a list of targets.
pub open spec fn discord_target_ids(v: Seq<DiscordTarget>) -> Seq<Seq<char>> {
    v.map_values(|t: DiscordTarget| t.id@)
}

/// Checks that there is at least one target and that no id is used twice;
/// the reported duplicate is the first id, in list order, that repeats an
/// earlier one.
pub fn check_targets(targets: &Vec<DiscordTarget>) -> (r: Result<(), TargetError>)
    ensures
        ({
            let ids = discord_target_ids(targets@);
            match r {
                Ok(()) => ids.len() > 0 && forall|j: int| 0 <= j < ids.len() ==> !repeats_earlier(ids, j),
                Err(TargetError::NoTargets) => ids.len() == 0,
                Err(TargetError::DuplicateTarget(id)) => exists|j: int|
                    0 <= j < ids.len() && repeats_earlier(ids, j) && id@ == ids[j] && forall|j2: int|
                        0 <= j2 < j ==> !repeats_earlier(ids, j2),
            }
        }),
{
    let ghost ids = discord_target_ids(targets@);
    if targets.len() == 0 {
        return Err(TargetError::NoTargets);
    }
    let mut j: usize = 0;
    while j < targets.len()
        invariant
            j <= targets@.len(),
            ids == discord_target_ids(targets@),
            forall|j2: int| 0 <= j2 < j ==> !repeats_earlier(ids, j2),
        decreases targets@.len() - j,
    {
        let mut i: usize = 0;
        while i < j
            invariant
                i <= j < targets@.len(),
                ids == discord_target_ids(targets@),
                forall|j2: int| 0 <= j2 < j ==> !repeats_earlier(ids, j2),
                forall|i2: int| 0 <= i2 < i ==> ids[i2] != ids[j as int],
            decreases j - i,
        {
            if targets[i].id == targets[j].id {
                assert(ids[i as int] == ids[j as int]);
                assert(repeats_earlier(ids, j as int));
                return Err(TargetError::DuplicateTarget(targets[j].id.clone()));
            }
            i = i + 1;
        }
        assert(!repeats_earlier(ids, j as int));
        j = j + 1;
    }
    Ok(())
}

/// Where the announcements for a target go.
pub enum Channel {
    /// A Discord webhook.
    Discord(String),
    /// The standard output, when no webhook is configured.
    Stdout,
}

/// A target id and the channel that reaches it.
pub struct ChannelTarget {
    pub id: String,
    pub channel: Channel,
}

/// The channels to announce to: each configured target through its Discord
/// webhook, after checking the targets; or, when no webhook is configured,
/// the target `default` on the standard output.
pub fn notification_channels(config: &DiscordConfig) -> (r: Result<Vec<ChannelTarget>, TargetError>)
    ensures
        r matches Ok(cs) && cs@.len() == 1 && cs@[0].id@ == default_target_id() && (match config.webhook_url {
            Some(url) => (cs@[0].channel matches Channel::Discord(u) && u@ == url@),
            None => cs@[0].channel is Stdout,
        }),
{
    let targets = config.targets();
    let mut out: Vec<ChannelTarget> = Vec::new();
    if targets.len() == 0 {
        out.push(ChannelTarget { id: String::from_str("default"), channel: Channel::Stdout });
        return Ok(out);
    }
    match check_targets(&targets) {
        Ok(()) => {},
        Err(e) => {
            proof {
                let ids = discord_target_ids(targets@);
                assert(ids.len() == 1);
                if e is DuplicateTarget {
                    let j = choose|j: int|
                        0 <= j < ids.len() && repeats_earlier(ids, j) && forall|j2: int|
                            0 <= j2 < j ==> !repeats_earlier(ids, j2);
                    assert(j == 0);
                }
            }
            return Err(e);
        },
    }
    let mut i: usize = 0;
    while i < targets.len()
        invariant
            i <= targets@.len(),
            out@.len() == i,
            forall|k: int|
                0 <= k < i ==> ((#[trigger] out@[k]).id@ == targets@[k].id@ && (out@[k].channel matches Channel::Discord(u) && u@
                    == targets@[k].webhook_url@)),
        decreases targets@.len() - i,
    {
        out.push(
            ChannelTarget {
                id: targets[i].id.clone(),
                channel: Channel::Discord(targets[i].webhook_url.clone()),
            },
        );
        i = i + 1;
    }
    Ok(out)
}

/// What the command line asks for, or why it cannot be used.
pub enum ArgError {
    MissingConfigPath,
    UnrecognizedArgument(String),
}

/// The contents of an [`ArgError`].
pub enum ArgErrorModel {
    MissingConfigPath,
    UnrecognizedArgument(Seq<char>),
}

impl View for ArgError {
    type V = ArgErrorModel;

    open spec fn view(&self) -> ArgErrorModel {
        match self {
            ArgError::MissingConfigPath => ArgErrorModel::MissingConfigPath,
            ArgError::UnrecognizedArgument(a) => ArgErrorModel::UnrecognizedArgument(a@),
        }
    }
}

impl ArgError {
    /// The text of the error.
    pub fn message(&self) -> (r: String)
        ensures
            r@ == match self@ {
                ArgErrorModel::MissingConfigPath => "missing path after --config"@,
                ArgErrorModel::UnrecognizedArgument(a) => "unrecognized argument: "@ + a,
            },
    {
        match self {
            ArgError::MissingConfigPath => String::from_str("missing path after --config"),
            ArgError::UnrecognizedArgument(a) => {
                let mut s = String::from_str("unrecognized argument: ");
                s.append(a.as_str());
                s
            },
        }
    }
}

/// Reads the arguments after the program name: each must be `--config`
/// followed by a path, and the last such path counts.
pub open spec fn parse_args(rest: Seq<Seq<char>>, path: Option<Seq<char>>) -> Result<
    Option<Seq<char>>,
    ArgErrorModel,
>
    decreases rest.len(),
{
    if rest.len() == 0 {
        Ok(path)
    } else if rest[0] == "--config"@ {
        if rest.len() < 2 {
            Err(ArgErrorModel::MissingConfigPath)
        } else {
            parse_args(rest.skip(2), Some(rest[1]))
        }
    } else {
        Err(ArgErrorModel::UnrecognizedArgument(rest[0]))
    }
}

/// What a whole command line, program name first, asks for.
pub open spec fn config_path_of(args: Seq<Seq<char>>) -> Result<Option<Seq<char>>, ArgErrorModel> {
    if args.len() == 0 {
        Ok(None)
    } else {
        parse_args(args.drop_first(), None)
    }
}

/// The arguments after the program name are exactly a sequence of
/// `--config <path>` pairs.
pub open spec fn config_pairs(rest: Seq<Seq<char>>) -> bool {
    rest.len() % 2 == 0 && forall|k: int|
        0 <= k < rest.len() && k % 2 == 0 ==> #[trigger] rest[k] == "--config"@
}

proof fn lemma_parse_args(rest: Seq<Seq<char>>, path: Option<Seq<char>>)
    ensures
        parse_args(rest, path) is Ok <==> config_pairs(rest),
        parse_args(rest, path) is Ok ==> parse_args(rest, path)->Ok_0 == (if rest.len() == 0 {
            path
        } else {
            Some(rest.last())
        }),
        parse_args(rest, path) matches Err(ArgErrorModel::UnrecognizedArgument(a)) ==> exists|k: int|
            0 <= k < rest.len() && k % 2 == 0 && #[trigger] rest[k] != "--config"@ && a == rest[k]
                && forall|k2: int| 0 <= k2 < k && k2 % 2 == 0 ==> #[trigger] rest[k2] == "--config"@,
        parse_args(rest, path) matches Err(ArgErrorModel::MissingConfigPath) ==> rest.len() % 2 == 1
            && forall|k: int| 0 <= k < rest.len() && k % 2 == 0 ==> #[trigger] rest[k] == "--config"@,
    decreases rest.len(),
{
    if rest.len() == 0 {
    } else if rest[0] == "--config"@ {
        if rest.len() < 2 {
        } else {
            let tail = rest.skip(2);
            lemma_parse_args(tail, Some(rest[1]));
            assert forall|k: int| 0 <= k < tail.len() implies #[trigger] tail[k] == rest[k + 2] by {}
            if config_pairs(rest) {
                assert forall|k: int| 0 <= k < tail.len() && k % 2 == 0 implies #[trigger] tail[k]
                    == "--config"@ by {
                    assert(rest[k + 2] == "--config"@);
                }
            }
            if config_pairs(tail) {
                assert forall|k: int| 0 <= k < rest.len() && k % 2 == 0 implies #[trigger] rest[k]
                    == "--config"@ by {
                    if k >= 2 {
                        assert(tail[k - 2] == "--config"@);
                    }
                }
            }
            if tail.len() > 0 {
                assert(tail.last() == rest.last());
            }
            match parse_args(tail, Some(rest[1])) {
                Err(ArgErrorModel::UnrecognizedArgument(a)) => {
                    let k = choose|k: int|
                        0 <= k < tail.len() && k % 2 == 0 && #[trigger] tail[k] != "--config"@ && a
                            == tail[k] && forall|k2: int|
                            0 <= k2 < k && k2 % 2 == 0 ==> #[trigger] tail[k2] == "--config"@;
                    assert(rest[k + 2] == tail[k]);
                    assert forall|k2: int| 0 <= k2 < k + 2 && k2 % 2 == 0 implies #[trigger] rest[k2]
                        == "--config"@ by {
                        if k2 >= 2 {
                            assert(tail[k2 - 2] == "--config"@);
                        }
                    }
                },
                Err(ArgErrorModel::MissingConfigPath) => {
                    assert forall|k: int| 0 <= k < rest.len() && k % 2 == 0 implies #[trigger] rest[k]
                        == "--config"@ by {
                        if k >= 2 {
                            assert(tail[k - 2] == "--config"@);
                        }
                    }
                },
                Ok(_) => {},
            }
        }
    } else {
        assert(!config_pairs(rest) || rest[0] == "--config"@);
    }
}

/// The arguments after the program name.
pub open spec fn args_after_program(args: Seq<Seq<char>>) -> Seq<Seq<char>> {
    if args.len() == 0 {
        Seq::empty()
    } else {
        args.drop_first()
    }
}

/// The command line is accepted exactly when the arguments after the program
/// name are `--config <path>` pairs, and then the last path counts; otherwise
/// the first argument that is not in such a pair is reported as unrecognized,
/// or a `--config` at the end without a path is reported as missing its path.
pub proof fn law_config_argument_form(args: Seq<Seq<char>>)
    ensures
        config_path_of(args) is Ok <==> config_pairs(args_after_program(args)),
        config_path_of(args) is Ok ==> config_path_of(args)->Ok_0 == (if args_after_program(
            args,
        ).len() == 0 {
            None
        } else {
            Some(args_after_program(args).last())
        }),
        config_path_of(args) matches Err(ArgErrorModel::UnrecognizedArgument(a)) ==> exists|k: int|
            0 <= k < args_after_program(args).len() && k % 2 == 0 && #[trigger] args_after_program(
                args,
            )[k] != "--config"@ && a == args_after_program(args)[k] && forall|k2: int|
                0 <= k2 < k && k2 % 2 == 0 ==> #[trigger] args_after_program(args)[k2]
                    == "--config"@,
        config_path_of(args) matches Err(ArgErrorModel::MissingConfigPath) ==> args_after_program(
            args,
        ).len() % 2 == 1 && forall|k: int|
            0 <= k < args_after_program(args).len() && k % 2 == 0 ==> #[trigger] args_after_program(
                args,
            )[k] == "--config"@,
{
    if args.len() > 0 {
        lemma_parse_args(args.drop_first(), None);
    } else {
        assert(config_pairs(Seq::<Seq<char>>::empty()));
    }
}

/// Reads the settings-file path from the command line (program name first).
pub fn parse_config_path_arg(args: &Vec<String>) -> (r: Result<Option<String>, ArgError>)
    ensures
        (match r {
            Ok(p) => Ok(opt_text(p)),
            Err(e) => Err(e@),
        }) == config_path_of(args@.map_values(|a: String| a@)),
{
    let ghost all = args@.map_values(|a: String| a@);
    if args.len() == 0 {
        return Ok(None);
    }
    let flag = String::from_str("--config");
    let mut config_path: Option<String> = None;
    let mut i: usize = 1;
    assert(all.skip(1) =~= all.drop_first());
    while i < args.len()
        invariant
            1 <= i <= args@.len(),
            all.len() == args@.len(),
            all == args@.map_values(|a: String| a@),
            flag@ == "--config"@,
            config_path_of(all) == parse_args(all.skip(i as int), opt_text(config_path)),
        decreases args@.len() - i,
    {
        let ghost rest = all.skip(i as int);
        assert(rest[0] == args@[i as int]@);
        if args[i] == flag {
            if i + 1 < args.len() {
                assert(rest[1] == args@[i + 1]@);
                assert(rest.skip(2) =~= all.skip(i + 2));
                config_path = Some(args[i + 1].clone());
                i = i + 2;
            } else {
                return Err(ArgError::MissingConfigPath);
            }
        } else {
            return Err(ArgError::UnrecognizedArgument(args[i].clone()));
        }
    }
    assert(all.skip(i as int).len() == 0);
    Ok(config_path)
}

/// What the standard library's `Path::join` makes of a directory and a name.
pub uninterp spec fn joined_path(dir: Seq<char>, name: Seq<char>) -> Seq<char>;

/// What the standard library's `Path::parent` makes of a path.
pub uninterp spec fn parent_path(p: Seq<char>) -> Option<Seq<char>>;

/// Joins a name to a directory with `std::path::Path::join`. The contract
/// claims only that the result is the library's answer for these texts.
#[verifier::external_body]
fn path_join(dir: &str, name: &str) -> (r: String)
    ensures
        r@ == joined_path(dir@, name@),
{
    std::path::Path::new(dir).join(name).to_string_lossy().into_owned()
}

/// The parent of a path, with `std::path::Path::parent`: the path without its
/// final component, so strictly shorter, or `None` when the path ends in a root
/// or is empty.
#[verifier::external_body]
fn path_parent(p: &str) -> (r: Option<String>)
    ensures
        opt_text(r) == parent_path(p@),
        r matches Some(q) ==> q@.len() < p@.len(),
{
    match std::path::Path::new(p).parent() {
        Some(q) => Some(q.to_string_lossy().into_owned()),
        None => None,
    }
}

/// Whether a regular file exists at a path, with `std::path::Path::is_file`.
/// Nothing is claimed of the result: it depends on what is on disk.
#[verifier::external_body]
fn path_is_file(p: &str) -> bool {
    std::path::Path::new(p).is_file()
}

/// The `k`-th ancestor of a path: the path itself, its parent, and so on.
pub open spec fn ancestor(p: Seq<char>, k: nat) -> Option<Seq<char>>
    decreases k,
{
    if k == 0 {
        Some(p)
    } else {
        match ancestor(p, (k - 1) as nat) {
            Some(q) => parent_path(q),
            None => None,
        }
    }
}

/// The `k`-th place where a file of the given name is looked for: the name
/// joined to the `k`-th ancestor of `start`.
pub open spec fn candidate(start: Seq<char>, name: Seq<char>, k: nat) -> Option<Seq<char>> {
    match ancestor(start, k) {
        Some(d) => Some(joined_path(d, name)),
        None => None,
    }
}

/// The places where the settings file is looked for, nearest first: the name
/// joined to `start_dir` and to each of its ancestors, up to the root.
pub fn config_candidates(start_dir: &str, file_name: &str) -> (r: Vec<String>)
    ensures
        ancestor(start_dir@, r@.len()) is None,
        forall|k: int|
            0 <= k < r@.len() ==> candidate(start_dir@, file_name@, k as nat) == Some(
                (#[trigger] r@[k])@,
            ),
{
    let mut dir = start_dir.to_owned();
    let mut out: Vec<String> = Vec::new();
    loop
        invariant
            ancestor(start_dir@, out@.len()) == Some(dir@),
            forall|k: int|
                0 <= k < out@.len() ==> candidate(start_dir@, file_name@, k as nat) == Some(
                    (#[trigger] out@[k])@,
                ),
        decreases dir@.len(),
    {
        let ghost n = out@.len();
        let ghost before = out@;
        out.push(path_join(dir.as_str(), file_name));
        assert(ancestor(start_dir@, n) == Some(dir@));
        assert forall|k: int| 0 <= k < out@.len() implies candidate(
            start_dir@,
            file_name@,
            k as nat,
        ) == Some((#[trigger] out@[k])@) by {
            if k < n {
                assert(out@[k] == before[k]);
            }
        }
        match path_parent(dir.as_str()) {
            Some(parent) => {
                dir = parent;
            },
            None => {
                return out;
            },
        }
    }
}

/// The nearest place where a file was found: the first probe, in order, whose
/// answer is `true`.
pub fn first_present(probes: &Vec<(String, bool)>) -> (r: Option<String>)
    ensures
        match r {
            Some(c) => exists|k: int|
                0 <= k < probes@.len() && (#[trigger] probes@[k]).1 && c@ == probes@[k].0@ && forall|
                    k2: int,
                | 0 <= k2 < k ==> !(#[trigger] probes@[k2]).1,
            None => forall|k: int| 0 <= k < probes@.len() ==> !(#[trigger] probes@[k]).1,
        },
{
    let mut i: usize = 0;
    while i < probes.len()
        invariant
            i <= probes@.len(),
            forall|k: int| 0 <= k < i ==> !(#[trigger] probes@[k]).1,
        decreases probes@.len() - i,
    {
        if probes[i].1 {
            return Some(probes[i].0.clone());
        }
        i = i + 1;
    }
    None
}

/// The disk check on the path `p` answered `b`: some call of [`path_is_file`]
/// on a text equal to `p` gave `b`.
pub closed spec fn disk_reported(p: Seq<char>, b: bool) -> bool {
    exists|s: &str| s@ == p && #[trigger] call_ensures(path_is_file, (s,), b)
}

proof fn lemma_ancestor_ends(p: Seq<char>, n: nat, k: nat)
    requires
        ancestor(p, n) is None,
        n <= k,
    ensures
        ancestor(p, k) is None,
    decreases k - n,
{
    if n < k {
        lemma_ancestor_ends(p, n, (k - 1) as nat);
    }
}

/// Looks for a file of the given name in `start_dir` and then in each of its
/// ancestors, nearest first, and returns the first path at which a file
/// exists: a returned path is the candidate for which the disk check answered
/// yes while it answered no for every nearer candidate; `None` comes only when
/// it answered no for every candidate.
pub fn find_nearest_config(start_dir: String, file_name: &str) -> (r: Option<String>)
    ensures
        r matches Some(c) ==> exists|k: nat| #[trigger] candidate(start_dir@, file_name@, k) == Some(c@),
        match r {
            Some(c) => exists|k: nat|
                #[trigger] candidate(start_dir@, file_name@, k) == Some(c@) && disk_reported(c@, true)
                    && forall|k2: nat|
                    k2 < k ==> (#[trigger] candidate(start_dir@, file_name@, k2) matches Some(c2)
                        && disk_reported(c2, false)),
            None => forall|k: nat|
                #[trigger] candidate(start_dir@, file_name@, k) matches Some(c2) ==> disk_reported(
                    c2,
                    false,
                ),
        },
{
    let candidates = config_candidates(start_dir.as_str(), file_name);
    let ghost start = start_dir@;
    let ghost name = file_name@;
    let mut probes: Vec<(String, bool)> = Vec::new();
    let mut i: usize = 0;
    let mut done = false;
    while i < candidates.len() && !done
        invariant
            i <= candidates@.len(),
            probes@.len() == i,
            start == start_dir@,
            name == file_name@,
            forall|k: int| 0 <= k < probes@.len() ==> (#[trigger] probes@[k]).0@ == candidates@[k]@,
            forall|k: int| 0 <= k < probes@.len() ==> disk_reported((#[trigger] probes@[k]).0@, probes@[k].1),
            done ==> i > 0 && probes@[i - 1].1,
            !done ==> forall|k: int| 0 <= k < probes@.len() ==> !(#[trigger] probes@[k]).1,
        decreases candidates@.len() - i,
    {
        let s = candidates[i].as_str();
        let found = path_is_file(s);
        assert(call_ensures(path_is_file, (s,), found));
        assert(disk_reported(candidates@[i as int]@, found));
        probes.push((candidates[i].clone(), found));
        i = i + 1;
        if found {
            done = true;
        }
    }
    let r = first_present(&probes);
    proof {
        if r is Some {
            let c = r->0;
            let k = choose|k: int|
                0 <= k < probes@.len() && (#[trigger] probes@[k]).1 && c@ == probes@[k].0@ && forall|
                    k2: int,
                | 0 <= k2 < k ==> !(#[trigger] probes@[k2]).1;
            assert(candidates@[k]@ == c@);
            assert(candidate(start, name, k as nat) == Some(c@));
            assert(disk_reported(probes@[k].0@, true));
            assert forall|k2: nat| k2 < k implies (#[trigger] candidate(start, name, k2) matches Some(
                c2,
            ) && disk_reported(c2, false)) by {
                assert(candidate(start, name, k2) == Some(candidates@[k2 as int]@));
                assert(!probes@[k2 as int].1);
                assert(disk_reported(probes@[k2 as int].0@, probes@[k2 as int].1));
            }
        } else {
            assert(!done);
            assert(i == candidates@.len());
            assert forall|k: nat| (#[trigger] candidate(start, name, k)) is Some implies disk_reported(
                candidate(start, name, k)->0,
                false,
            ) by {
                if k >= candidates@.len() {
                    lemma_ancestor_ends(start, candidates@.len() as nat, k);
                } else {
                    assert(candidate(start, name, k) == Some(candidates@[k as int]@));
                    assert(!probes@[k as int].1);
                    assert(disk_reported(probes@[k as int].0@, probes@[k as int].1));
                }
            }
        }
    }
    r
}

} // verus!
