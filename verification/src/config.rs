//! Configuration, and when to read it again.

use crate::text::{lower_chars, lowered, lowering_adds_up, occurs, occurs_in};
use vstd::prelude::*;
use vstd::string::*;

verus! {

#[derive(Debug, Clone, PartialEq, Eq)]
pub struct Config {
    /// Maximum number of unpinned entries retained. Pinned entries are never
    /// counted against this and never evicted.
    pub history_size: usize,
    /// Entries larger than this are dropped rather than stored.
    pub max_item_bytes: usize,
    /// Skip entries that contain nothing but whitespace.
    pub ignore_whitespace_only: bool,
    pub privacy: Privacy,
}

#[derive(Debug, Clone, PartialEq, Eq)]
pub struct Privacy {
    /// Window classes whose clipboard writes are never recorded, matched as a
    /// case-insensitive substring against both WM_CLASS fields.
    ///
    /// Defaults are deliberately non-empty: an empty denylist means the first
    /// password you copy lands in a plaintext SQLite file, and no later
    /// release can un-write it.
    pub denylist: Vec<String>,
}

/// The texts of a list of strings.
pub open spec fn texts_of(list: Seq<String>) -> Seq<Seq<char>> {
    list.map_values(|s: String| s@)
}

/// The window classes that are denied unless the configuration names others.
pub open spec fn default_denylist() -> Seq<Seq<char>> {
    seq![
        "keepassxc"@,
        "keepass"@,
        "1password"@,
        "bitwarden"@,
        "enpass"@,
        "keeper"@,
        "seahorse"@,
    ]
}

/// The default configuration.
pub open spec fn is_default(config: Config) -> bool {
    &&& config.history_size == 500
    &&& config.max_item_bytes == 0x10_0000
    &&& config.ignore_whitespace_only
    &&& texts_of(config.privacy.denylist@) == default_denylist()
}

impl Default for Privacy {
    fn default() -> (privacy: Self)
        ensures
            texts_of(privacy.denylist@) == default_denylist(),
    {
        let mut denylist: Vec<String> = Vec::new();
        denylist.push("keepassxc".to_owned());
        denylist.push("keepass".to_owned());
        denylist.push("1password".to_owned());
        denylist.push("bitwarden".to_owned());
        denylist.push("enpass".to_owned());
        denylist.push("keeper".to_owned());
        denylist.push("seahorse".to_owned());
        proof {
            assert(texts_of(denylist@) =~= default_denylist());
        }
        Privacy { denylist }
    }
}

impl Default for Config {
    fn default() -> (config: Self)
        ensures
            is_default(config),
    {
        Config {
            history_size: 500,
            max_item_bytes: 1024 * 1024,
            ignore_whitespace_only: true,
            privacy: Privacy::default(),
        }
    }
}

/// What a configuration file sets. A key that it does not name is `None`.
pub struct Settings {
    pub history_size: Option<usize>,
    pub max_item_bytes: Option<usize>,
    pub ignore_whitespace_only: Option<bool>,
    pub denylist: Option<Vec<String>>,
}

/// What came of reading a configuration file.
pub enum ReadOutcome {
    /// It was read.
    Read(Settings),
    /// It is no configuration; this is why.
    Malformed(String),
    /// There is no such file.
    Missing,
    /// It could not be read; this is why.
    Unreadable(String),
}

/// An entry of the denylist matches a window class.
pub open spec fn denies(entry: Seq<char>, class: Seq<char>) -> bool {
    entry.len() > 0 && occurs_in(lowered(entry), lowered(class))
}

impl Config {
    /// `config` has what `settings` sets, and defaults for the rest.
    pub open spec fn takes(self, settings: Settings) -> bool {
        &&& self.history_size == (match settings.history_size {
            Some(n) => n,
            None => 500,
        })
        &&& self.max_item_bytes == (match settings.max_item_bytes {
            Some(n) => n,
            None => 0x10_0000,
        })
        &&& self.ignore_whitespace_only == (match settings.ignore_whitespace_only {
            Some(b) => b,
            None => true,
        })
        &&& texts_of(self.privacy.denylist@) == (match settings.denylist {
            Some(list) => texts_of(list@),
            None => default_denylist(),
        })
    }

    /// Whether some entry of the denylist matches `class`.
    pub open spec fn denied(self, class: Seq<char>) -> bool {
        exists|i: int|
            0 <= i < self.privacy.denylist@.len() && denies(
                (#[trigger] self.privacy.denylist@[i])@,
                class,
            )
    }

    /// The configuration that a file sets: a key that is not there keeps its
    /// default.
    pub fn from_settings(settings: Settings) -> (config: Config)
        ensures
            config.takes(settings),
    {
        let mut config = Config::default();
        if let Some(n) = settings.history_size {
            config.history_size = n;
        }
        if let Some(n) = settings.max_item_bytes {
            config.max_item_bytes = n;
        }
        if let Some(b) = settings.ignore_whitespace_only {
            config.ignore_whitespace_only = b;
        }
        if let Some(list) = settings.denylist {
            config.privacy = Privacy { denylist: list };
        }
        config
    }

    /// The configuration of a file at `path`, or why there is none. That there
    /// is no file is the normal case, not an error.
    pub fn load(path: &str, outcome: ReadOutcome) -> (config: Result<Config, String>)
        ensures
            match outcome {
                ReadOutcome::Read(settings) => config matches Ok(c) && c.takes(settings),
                ReadOutcome::Missing => config matches Ok(c) && is_default(c),
                ReadOutcome::Malformed(why) => config matches Err(e) && e@ == "parsing config at "@
                    + path@ + ": "@ + why@,
                ReadOutcome::Unreadable(why) => config matches Err(e) && e@ == "reading config at "@
                    + path@ + ": "@ + why@,
            },
    {
        match outcome {
            ReadOutcome::Read(settings) => Ok(Config::from_settings(settings)),
            ReadOutcome::Missing => Ok(Config::default()),
            ReadOutcome::Malformed(why) => Err(with_context("parsing config at ", path, &why)),
            ReadOutcome::Unreadable(why) => Err(with_context("reading config at ", path, &why)),
        }
    }

    /// True if `class` matches any denylist entry.
    pub fn is_denied(&self, class: &str) -> (denied: bool)
        ensures
            denied == self.denied(class@),
    {
        let lower = lower_chars(class);
        let list = &self.privacy.denylist;
        let mut i: usize = 0;
        while i < list.len()
            invariant
                i <= list@.len(),
                list == self.privacy.denylist,
                lower@ == lowered(class@),
                forall|k: int| 0 <= k < i ==> !denies((#[trigger] list@[k])@, class@),
            decreases list@.len() - i,
        {
            if !list[i].as_str().is_empty() && occurs(&lower_chars(list[i].as_str()), &lower) {
                proof {
                    assert(denies(self.privacy.denylist@[i as int]@, class@));
                }
                return true;
            }
            i += 1;
        }
        false
    }
}

fn with_context(doing: &str, path: &str, why: &String) -> (text: String)
    ensures
        text@ == doing@ + path@ + ": "@ + why@,
{
    let mut text = doing.to_owned();
    text.append(path);
    text.append(": ");
    text.append(why.as_str());
    text
}

/// Knows when the config file is to be read again.
///
/// Polling mtime costs one `stat` per clipboard event, which is far below the
/// noise floor of an X11 round trip.
pub struct ConfigWatcher {
    mtime: Option<i128>,
    config: Config,
}

impl ConfigWatcher {
    /// When the file was last changed, as far as the watcher knows; none for a
    /// file that was not there.
    pub closed spec fn seen(self) -> Option<i128> {
        self.mtime
    }

    /// The configuration in force.
    pub closed spec fn in_force(self) -> Config {
        self.config
    }

    /// A watcher of a file that was last changed at `mtime` and held `loaded`.
    /// A file that does not hold a configuration leaves the defaults in force.
    pub fn new(mtime: Option<i128>, loaded: Result<Config, String>) -> (watcher: ConfigWatcher)
        ensures
            watcher.seen() == mtime,
            match loaded {
                Ok(config) => watcher.in_force() == config,
                Err(_) => is_default(watcher.in_force()),
            },
    {
        match loaded {
            Ok(config) => ConfigWatcher { mtime, config },
            Err(_) => ConfigWatcher { mtime, config: Config::default() },
        }
    }

    /// The configuration in force.
    pub fn config(&self) -> (config: &Config)
        ensures
            *config == self.in_force(),
    {
        &self.config
    }

    /// Whether the file changed since it was last looked at.
    pub fn is_stale(&self, mtime: Option<i128>) -> (stale: bool)
        ensures
            stale == (mtime != self.seen()),
    {
        match (mtime, self.mtime) {
            (Some(a), Some(b)) => a != b,
            (None, None) => false,
            _ => true,
        }
    }

    /// Returns the current config, taking over what the file holds first if
    /// the file changed; `loaded` is not looked at otherwise.
    ///
    /// A config that fails to parse is ignored: a typo should not take the
    /// daemon's capture loop down with it.
    pub fn current(&mut self, mtime: Option<i128>, loaded: Result<Config, String>) -> (config:
        &Config)
        ensures
            *config == final(self).in_force(),
            final(self).seen() == mtime,
            final(self).in_force() == (if mtime == old(self).seen() {
                old(self).in_force()
            } else {
                match loaded {
                    Ok(fresh) => fresh,
                    Err(_) => old(self).in_force(),
                }
            }),
    {
        if self.is_stale(mtime) {
            self.mtime = mtime;
            if let Ok(fresh) = loaded {
                self.config = fresh;
            }
        }
        &self.config
    }
}

/// Case makes no difference to the denylist.
pub proof fn denying_ignores_case(config: Config, a: Seq<char>, b: Seq<char>)
    requires
        lowered(a) == lowered(b),
    ensures
        config.denied(a) == config.denied(b),
{
    assert forall|entry: Seq<char>| denies(entry, a) == denies(entry, b) by {}
}

/// What is denied stays denied as part of a longer class.
pub proof fn a_longer_class_is_denied_too(
    config: Config,
    left: Seq<char>,
    class: Seq<char>,
    right: Seq<char>,
)
    requires
        config.denied(class),
    ensures
        config.denied(left + class + right),
{
    let i = choose|i: int|
        0 <= i < config.privacy.denylist@.len() && denies(
            (#[trigger] config.privacy.denylist@[i])@,
            class,
        );
    let entry = config.privacy.denylist@[i]@;
    let part = lowered(entry);
    let at = choose|at: int|
        0 <= at && at + part.len() <= lowered(class).len() && #[trigger] lowered(class).subrange(
            at,
            at + part.len(),
        ) == part;
    let whole = left + class + right;
    let from = lowered(left).len() + at;
    lowering_adds_up(left + class, right);
    lowering_adds_up(left, class);
    assert(lowered(whole).subrange(from, from + part.len()) =~= lowered(class).subrange(
        at,
        at + part.len(),
    ));
    assert(denies(entry, whole));
}

/// What denies an application denies it in capitals and in small letters: an
/// entry matches a class that holds the entry's text in any case.
pub proof fn an_entry_denies_itself_in_any_case(entry: Seq<char>, class: Seq<char>)
    requires
        entry.len() > 0,
        lowered(entry) == lowered(class),
    ensures
        denies(entry, class),
{
    let part = lowered(entry);
    let at: int = 0;
    assert(lowered(class).subrange(at, at + part.len()) =~= part);
}

/// An empty entry of the denylist matches nothing.
pub proof fn an_empty_entry_denies_nothing(class: Seq<char>)
    ensures
        !denies(Seq::empty(), class),
{
}

/// A configuration that sets nothing is the default one.
pub proof fn nothing_set_is_the_default(config: Config, settings: Settings)
    requires
        settings.history_size is None,
        settings.max_item_bytes is None,
        settings.ignore_whitespace_only is None,
        settings.denylist is None,
    ensures
        config.takes(settings) <==> is_default(config),
{
}

/// Nothing is denied without cause: a class that is denied holds the text of an
/// entry of the denylist, in one piece and in some case.
pub proof fn what_is_denied_holds_an_entry(config: Config, class: &str, denied: bool)
    requires
        call_ensures(Config::is_denied, (&config, class), denied),
    ensures
        denied ==> exists|i: int, at: int|
            {
                let entry = config.privacy.denylist@[i]@;
                &&& 0 <= i < config.privacy.denylist@.len()
                &&& entry.len() > 0
                &&& 0 <= at <= lowered(class@).len()
                &&& #[trigger] lowered(config.privacy.denylist@[i]@).is_prefix_of(
                    #[trigger] lowered(class@).skip(at),
                )
            },
        !denied ==> forall|i: int, at: int|
            0 <= i < config.privacy.denylist@.len() && config.privacy.denylist@[i]@.len() > 0 && 0
                <= at <= lowered(class@).len() ==> !#[trigger] lowered(
                config.privacy.denylist@[i]@,
            ).is_prefix_of(#[trigger] lowered(class@).skip(at)),
{
    let low = lowered(class@);
    if denied {
        let i = choose|i: int|
            0 <= i < config.privacy.denylist@.len() && denies(
                (#[trigger] config.privacy.denylist@[i])@,
                class@,
            );
        let part = lowered(config.privacy.denylist@[i]@);
        let at = choose|at: int|
            0 <= at && at + part.len() <= low.len() && #[trigger] low.subrange(at, at + part.len())
                == part;
        assert(low.skip(at).take(part.len() as int) =~= low.subrange(at, at + part.len()));
        assert(part.is_prefix_of(low.skip(at)));
    } else {
        assert forall|i: int, at: int|
            0 <= i < config.privacy.denylist@.len() && config.privacy.denylist@[i]@.len() > 0 && 0
                <= at <= low.len() implies !#[trigger] lowered(
            config.privacy.denylist@[i]@,
        ).is_prefix_of(#[trigger] low.skip(at)) by {
            let part = lowered(config.privacy.denylist@[i]@);
            if part.is_prefix_of(low.skip(at)) {
                assert(low.subrange(at, at + part.len()) =~= low.skip(at).take(part.len() as int));
                assert(denies(config.privacy.denylist@[i]@, class@));
            }
        }
    }
}

/// What a file sets is what holds, and a key that it does not set changes
/// nothing: two files that set a key alike agree on it, whatever else they set.
pub proof fn what_is_set_holds(a: Config, b: Config, first: Settings, second: Settings)
    requires
        a.takes(first),
        b.takes(second),
    ensures
        first.history_size matches Some(n) ==> a.history_size == n,
        first.max_item_bytes matches Some(n) ==> a.max_item_bytes == n,
        first.ignore_whitespace_only matches Some(w) ==> a.ignore_whitespace_only == w,
        first.denylist matches Some(list) ==> texts_of(a.privacy.denylist@) == texts_of(list@),
        first.history_size == second.history_size ==> a.history_size == b.history_size,
        first.max_item_bytes == second.max_item_bytes ==> a.max_item_bytes == b.max_item_bytes,
        first.ignore_whitespace_only == second.ignore_whitespace_only ==> a.ignore_whitespace_only
            == b.ignore_whitespace_only,
        first.denylist == second.denylist ==> texts_of(a.privacy.denylist@) == texts_of(
            b.privacy.denylist@,
        ),
{
}

/// A file that is not there counts as one that sets nothing, a file that was
/// read counts for what it sets, and any other is refused with the reason.
pub proof fn a_file_is_taken_or_refused(
    path: &str,
    outcome: ReadOutcome,
    loaded: Result<Config, String>,
)
    requires
        call_ensures(Config::load, (path, outcome), loaded),
    ensures
        loaded is Ok <==> outcome is Read || outcome is Missing,
        outcome matches ReadOutcome::Read(settings) ==> (loaded matches Ok(c) && c.takes(settings)),
        outcome is Missing ==> forall|settings: Settings|
            settings.history_size is None && settings.max_item_bytes is None
                && settings.ignore_whitespace_only is None && settings.denylist is None
                ==> #[trigger] loaded->Ok_0.takes(settings),
        outcome matches ReadOutcome::Malformed(why) ==> why@.is_suffix_of(loaded->Err_0@),
        outcome matches ReadOutcome::Unreadable(why) ==> why@.is_suffix_of(loaded->Err_0@),
{
    match outcome {
        ReadOutcome::Malformed(why) => {
            let text = loaded->Err_0@;
            assert(text.subrange(text.len() - why@.len(), text.len() as int) =~= why@);
        },
        ReadOutcome::Unreadable(why) => {
            let text = loaded->Err_0@;
            assert(text.subrange(text.len() - why@.len(), text.len() as int) =~= why@);
        },
        _ => {},
    }
}

} // verus!
