//! XDG base-directory resolution.
//!
//! A path is the bytes that the system knows it by. What the environment says
//! is handed in.

use vstd::prelude::*;
use vstd::string::*;

verus! {

/// What the environment says of the directories to use. An unset variable is
/// `None`.
pub struct Environment {
    /// `HOME`
    pub home: Option<Vec<u8>>,
    /// `XDG_CONFIG_HOME`
    pub config_home: Option<Vec<u8>>,
    /// `XDG_DATA_HOME`
    pub data_home: Option<Vec<u8>>,
    /// `XDG_RUNTIME_DIR`
    pub runtime_dir: Option<Vec<u8>>,
    /// `USER`, where it is text
    pub user: Option<String>,
    /// The system's directory for temporary files.
    pub temp_dir: Vec<u8>,
}

/// The bytes of some text.
pub open spec fn bytes_of(text: Seq<char>) -> Seq<u8> {
    vstd::utf8::encode_utf8(text)
}

/// The path of `name` in the directory `base`.
pub open spec fn joined(base: Seq<u8>, name: Seq<u8>) -> Seq<u8> {
    if base.len() > 0 && base.last() != 0x2f {
        base.push(0x2f) + name
    } else {
        base + name
    }
}

/// A variable that is set to something.
pub open spec fn set_to_something(var: Option<Vec<u8>>) -> bool {
    var matches Some(v) && v@.len() > 0
}

impl Environment {
    /// The home directory, or the one for temporary files.
    pub open spec fn home_dir(self) -> Seq<u8> {
        match self.home {
            Some(home) => home@,
            None => self.temp_dir@,
        }
    }

    /// Where the configuration is.
    pub open spec fn config_base(self) -> Seq<u8> {
        if set_to_something(self.config_home) {
            self.config_home->0@
        } else {
            joined(self.home_dir(), bytes_of(".config"@))
        }
    }

    /// Where the data is.
    pub open spec fn data_base(self) -> Seq<u8> {
        if set_to_something(self.data_home) {
            self.data_home->0@
        } else {
            joined(self.home_dir(), bytes_of(".local/share"@))
        }
    }

    /// The directory for the socket.
    pub open spec fn socket_dir(self) -> Seq<u8> {
        if set_to_something(self.runtime_dir) {
            joined(self.runtime_dir->0@, bytes_of("clipster"@))
        } else {
            let user = match self.user {
                Some(user) => user@,
                None => "unknown"@,
            };
            joined(self.temp_dir@, bytes_of("clipster-"@ + user))
        }
    }
}

fn join(base: &Vec<u8>, name: &str) -> (path: Vec<u8>)
    ensures
        path@ == joined(base@, bytes_of(name@)),
{
    let mut path: Vec<u8> = base.clone();
    if base.len() > 0 && base[base.len() - 1] != 0x2f {
        path.push(0x2f);
    }
    path.extend_from_slice(name.as_bytes());
    proof {
        assert(path@ =~= joined(base@, bytes_of(name@)));
    }
    path
}

fn home(env: &Environment) -> (path: Vec<u8>)
    ensures
        path@ == env.home_dir(),
{
    match &env.home {
        Some(home) => home.clone(),
        None => env.temp_dir.clone(),
    }
}

fn xdg(var: &Option<Vec<u8>>, env: &Environment, fallback: &str) -> (path: Vec<u8>)
    ensures
        path@ == (if set_to_something(*var) {
            var->0@
        } else {
            joined(env.home_dir(), bytes_of(fallback@))
        }),
{
    match var {
        Some(v) if v.len() > 0 => v.clone(),
        _ => join(&home(env), fallback),
    }
}

/// The directory of the configuration.
pub fn config_dir(env: &Environment) -> (path: Vec<u8>)
    ensures
        path@ == joined(env.config_base(), bytes_of("clipster"@)),
{
    join(&xdg(&env.config_home, env, ".config"), "clipster")
}

/// The directory of the data.
pub fn data_dir(env: &Environment) -> (path: Vec<u8>)
    ensures
        path@ == joined(env.data_base(), bytes_of("clipster"@)),
{
    join(&xdg(&env.data_home, env, ".local/share"), "clipster")
}

/// Sockets belong in the runtime dir so they are cleaned up on logout. If the
/// session manager did not provide one, fall back to a user-scoped temp dir.
pub fn runtime_dir(env: &Environment) -> (path: Vec<u8>)
    ensures
        path@ == env.socket_dir(),
{
    match &env.runtime_dir {
        Some(v) if v.len() > 0 => join(v, "clipster"),
        _ => {
            let mut name = "clipster-".to_owned();
            match &env.user {
                Some(user) => name.append(user.as_str()),
                None => name.append("unknown"),
            }
            join(&env.temp_dir, name.as_str())
        },
    }
}

/// The configuration file.
pub fn config_path(env: &Environment) -> (path: Vec<u8>)
    ensures
        path@ == joined(
            joined(env.config_base(), bytes_of("clipster"@)),
            bytes_of("config.toml"@),
        ),
{
    join(&config_dir(env), "config.toml")
}

/// The history database.
pub fn db_path(env: &Environment) -> (path: Vec<u8>)
    ensures
        path@ == joined(joined(env.data_base(), bytes_of("clipster"@)), bytes_of("history.db"@)),
{
    join(&data_dir(env), "history.db")
}

/// The daemon's socket.
pub fn socket_path(env: &Environment) -> (path: Vec<u8>)
    ensures
        path@ == joined(env.socket_dir(), bytes_of("clipsterd.sock"@)),
{
    join(&runtime_dir(env), "clipsterd.sock")
}

/// A joined path ends in the name, with a slash in front of it unless the
/// directory is empty.
pub proof fn a_joined_path_ends_in_the_name(base: Seq<u8>, name: Seq<u8>)
    ensures
        joined(base, name).subrange(
            joined(base, name).len() - name.len(),
            joined(base, name).len() as int,
        ) == name,
        base.len() > 0 ==> joined(base, name)[joined(base, name).len() - name.len() - 1] == 0x2f,
        base.is_prefix_of(joined(base, name)),
        joined(base, name).len() == base.len() + name.len() + (if base.len() == 0 || base.last()
            == 0x2f {
            0int
        } else {
            1
        }),
{
}

/// The files are where the environment says: below a variable that is set to
/// something, and otherwise below the home directory, or the one for temporary
/// files where there is no home.
pub proof fn files_are_where_the_environment_says(env: Environment, config: Vec<u8>, db: Vec<u8>)
    requires
        call_ensures(config_path, (&env,), config),
        call_ensures(db_path, (&env,), db),
    ensures
        ({
            let home = match env.home {
                Some(home) => home@,
                None => env.temp_dir@,
            };
            &&& match env.config_home {
                Some(place) => if place@.len() > 0 {
                    place@.is_prefix_of(config@)
                } else {
                    home.is_prefix_of(config@)
                },
                None => home.is_prefix_of(config@),
            }
            &&& match env.data_home {
                Some(place) => if place@.len() > 0 {
                    place@.is_prefix_of(db@)
                } else {
                    home.is_prefix_of(db@)
                },
                None => home.is_prefix_of(db@),
            }
            &&& bytes_of("config.toml"@).is_suffix_of(config@)
            &&& bytes_of("history.db"@).is_suffix_of(db@)
            &&& set_to_something(env.config_home) ==> config@ == joined(
                joined(env.config_home->0@, bytes_of("clipster"@)),
                bytes_of("config.toml"@),
            )
            &&& !set_to_something(env.config_home) ==> config@ == joined(
                joined(joined(home, bytes_of(".config"@)), bytes_of("clipster"@)),
                bytes_of("config.toml"@),
            )
            &&& set_to_something(env.data_home) ==> db@ == joined(
                joined(env.data_home->0@, bytes_of("clipster"@)),
                bytes_of("history.db"@),
            )
            &&& !set_to_something(env.data_home) ==> db@ == joined(
                joined(joined(home, bytes_of(".local/share"@)), bytes_of("clipster"@)),
                bytes_of("history.db"@),
            )
        }),
{
    let name = bytes_of("clipster"@);
    let config_dir = joined(env.config_base(), name);
    let data_dir = joined(env.data_base(), name);
    lemma_prefixes_carry_over(env.home_dir(), bytes_of(".config"@), name, bytes_of("config.toml"@));
    lemma_prefixes_carry_over(
        env.home_dir(),
        bytes_of(".local/share"@),
        name,
        bytes_of("history.db"@),
    );
    a_joined_path_ends_in_the_name(env.config_base(), name);
    a_joined_path_ends_in_the_name(env.data_base(), name);
    a_joined_path_ends_in_the_name(config_dir, bytes_of("config.toml"@));
    a_joined_path_ends_in_the_name(data_dir, bytes_of("history.db"@));
    lemma_prefix_of_prefix(env.config_base(), config_dir, config@);
    lemma_prefix_of_prefix(env.data_base(), data_dir, db@);
}

/// The socket is in the runtime directory where there is one, and otherwise in
/// the directory for temporary files, under a name of the user's own.
pub proof fn the_socket_is_the_users_own(env: Environment, socket: Vec<u8>)
    requires
        call_ensures(socket_path, (&env,), socket),
    ensures
        bytes_of("clipsterd.sock"@).is_suffix_of(socket@),
        match env.runtime_dir {
            Some(place) => if place@.len() > 0 {
                place@.is_prefix_of(socket@)
            } else {
                env.temp_dir@.is_prefix_of(socket@)
            },
            None => env.temp_dir@.is_prefix_of(socket@),
        },
        set_to_something(env.runtime_dir) ==> socket@ == joined(
            joined(env.runtime_dir->0@, bytes_of("clipster"@)),
            bytes_of("clipsterd.sock"@),
        ),
        !set_to_something(env.runtime_dir) ==> (env.user matches Some(user) ==> socket@ == joined(
            joined(env.temp_dir@, bytes_of("clipster-"@ + user@)),
            bytes_of("clipsterd.sock"@),
        )),
{
    let dir = env.socket_dir();
    a_joined_path_ends_in_the_name(dir, bytes_of("clipsterd.sock"@));
    if set_to_something(env.runtime_dir) {
        let place = env.runtime_dir->0@;
        a_joined_path_ends_in_the_name(place, bytes_of("clipster"@));
        lemma_prefix_of_prefix(place, dir, socket@);
    } else {
        let user = match env.user {
            Some(user) => user@,
            None => "unknown"@,
        };
        a_joined_path_ends_in_the_name(env.temp_dir@, bytes_of("clipster-"@ + user));
        lemma_prefix_of_prefix(env.temp_dir@, dir, socket@);
    }
}

proof fn lemma_prefix_of_prefix(a: Seq<u8>, b: Seq<u8>, c: Seq<u8>)
    requires
        a.is_prefix_of(b),
        b.is_prefix_of(c),
    ensures
        a.is_prefix_of(c),
{
    assert(a =~= c.take(a.len() as int)) by {
        assert(b == c.take(b.len() as int));
        assert(a == b.take(a.len() as int));
    }
}

proof fn lemma_prefixes_carry_over(base: Seq<u8>, one: Seq<u8>, two: Seq<u8>, three: Seq<u8>)
    ensures
        base.is_prefix_of(joined(joined(joined(base, one), two), three)),
{
    a_joined_path_ends_in_the_name(base, one);
    a_joined_path_ends_in_the_name(joined(base, one), two);
    a_joined_path_ends_in_the_name(joined(joined(base, one), two), three);
    lemma_prefix_of_prefix(base, joined(base, one), joined(joined(base, one), two));
    lemma_prefix_of_prefix(
        base,
        joined(joined(base, one), two),
        joined(joined(joined(base, one), two), three),
    );
}

} // verus!
