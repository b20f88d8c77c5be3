//! The settings of the server: each is taken from the command line, else
//! from the environment, else it has a default.

use vstd::prelude::*;
use vstd::string::StringExecFns;
use crate::server::configuration::repository::{upper_case, Repository};
use crate::server::game_repository::GameRepositoryEnum;

pub mod repository;

verus! {

pub const DEFAULT_SERVER_PORT: u16 = 6379;

pub const DEFAULT_GAME_REPOSITORY: Repository = Repository::Local;

pub const DEFAULT_REDIS_CONNECTION_STRING: &'static str = "redis://127.0.0.1/";

/// A setting that was looked for in the environment.
#[derive(Debug, Clone, Copy, PartialEq, Eq, Structural)]
pub enum FromEnvironment<T> {
    /// The environment does not hold it.
    Unset,
    /// The environment holds it, but not in a form that can be read.
    Unreadable,
    /// The environment holds this value.
    Held(T),
}

/// A setting with the place that it was taken from.
#[derive(Debug, Clone, Copy, PartialEq, Eq, Structural)]
pub struct Chosen<T> {
    pub value: T,
    /// Whether the environment held the setting in a form that could not be
    /// read, so that the default was taken.
    pub unreadable: bool,
}

/// The value of a setting: the one given on the command line; else the one
/// that the environment holds; else the default.
pub open spec fn choice<T>(cli: Option<T>, environment: FromEnvironment<T>, default: T) -> Chosen<
    T,
> {
    match cli {
        Some(value) => Chosen { value, unreadable: false },
        None => match environment {
            FromEnvironment::Held(value) => Chosen { value, unreadable: false },
            FromEnvironment::Unreadable => Chosen { value: default, unreadable: true },
            FromEnvironment::Unset => Chosen { value: default, unreadable: false },
        },
    }
}

/// The value of a setting: the one given on the command line; else the one
/// that the environment holds; else the default.
pub fn choose_setting<T>(cli: Option<T>, environment: FromEnvironment<T>, default: T) -> (r: Chosen<
    T,
>)
    ensures
        r == choice(cli, environment, default),
{
    match cli {
        Some(value) => Chosen { value, unreadable: false },
        None => match environment {
            FromEnvironment::Held(value) => Chosen { value, unreadable: false },
            FromEnvironment::Unreadable => Chosen { value: default, unreadable: true },
            FromEnvironment::Unset => Chosen { value: default, unreadable: false },
        },
    }
}

/// The port of the server: the one given on the command line; else the one
/// that the environment holds; else port 6379.
pub fn get_port(cli: Option<u16>, environment: FromEnvironment<u16>) -> (r: Chosen<u16>)
    ensures
        r == choice(cli, environment, DEFAULT_SERVER_PORT),
{
    choose_setting(cli, environment, DEFAULT_SERVER_PORT)
}

/// What the environment holds under the name of the repository.
pub open spec fn repository_named(environment: Option<&str>) -> FromEnvironment<Repository> {
    match environment {
        None => FromEnvironment::Unset,
        Some(name) => match Repository::named(upper_case(name@)) {
            Ok(repository) => FromEnvironment::Held(repository),
            Err(_) => FromEnvironment::Unreadable,
        },
    }
}

/// The kind of repository: the one given on the command line; else the one
/// that the environment names, in whatever case; else the local one.
pub fn get_repository(cli: Option<Repository>, environment: Option<&str>) -> (r: Chosen<Repository>)
    ensures
        r == choice(cli, repository_named(environment), DEFAULT_GAME_REPOSITORY),
{
    let named = match environment {
        None => FromEnvironment::Unset,
        Some(name) => match Repository::parse(name) {
            Ok(repository) => FromEnvironment::Held(repository),
            Err(_) => FromEnvironment::Unreadable,
        },
    };
    choose_setting(cli, named, DEFAULT_GAME_REPOSITORY)
}

/// The address of the Redis server: the one given on the command line; else
/// the one that the environment holds; else the one on this machine.
pub open spec fn redis_address(cli: Option<String>, environment: Option<String>) -> Seq<char> {
    match cli {
        Some(address) => address@,
        None => match environment {
            Some(address) => address@,
            None => DEFAULT_REDIS_CONNECTION_STRING@,
        },
    }
}

/// The repository of the games: the local one, or the Redis server at the
/// address that was chosen.
pub fn get_game_repository(
    repository: Repository,
    cli: Option<String>,
    environment: Option<String>,
) -> (r: GameRepositoryEnum)
    ensures
        repository == Repository::Local ==> r is Local,
        repository == Repository::Redis ==> (r matches GameRepositoryEnum::Redis(address)
            && address@ == redis_address(cli, environment)),
{
    match repository {
        Repository::Local => GameRepositoryEnum::Local,
        Repository::Redis => GameRepositoryEnum::Redis(
            if let Some(redis_string) = cli {
                redis_string
            } else if let Some(redis_string) = environment {
                redis_string
            } else {
                String::from_str(DEFAULT_REDIS_CONNECTION_STRING)
            },
        ),
    }
}

} // verus!
