use quantum_tictactoe::server::configuration::repository::Repository;
use std::str::FromStr;

#[test]
fn test_from_str() {
    assert_eq!(
        <Repository as FromStr>::from_str("local"),
        Ok(Repository::Local)
    );
    assert_eq!(
        <Repository as FromStr>::from_str("LOCAL"),
        Ok(Repository::Local)
    );
    assert_eq!(
        <Repository as FromStr>::from_str("Local"),
        Ok(Repository::Local)
    );
    assert_eq!(
        <Repository as FromStr>::from_str("LoCaL"),
        Ok(Repository::Local)
    );
    assert_eq!(<Repository as FromStr>::from_str("LOC"), Err(()));

    assert_eq!(
        <Repository as FromStr>::from_str("REDIS"),
        Ok(Repository::Redis)
    );
    assert_eq!(
        <Repository as FromStr>::from_str("redis"),
        Ok(Repository::Redis)
    );
    assert_eq!(
        <Repository as FromStr>::from_str("Redis"),
        Ok(Repository::Redis)
    );
    assert_eq!(
        <Repository as FromStr>::from_str("ReDiS"),
        Ok(Repository::Redis)
    );
    assert_eq!(<Repository as FromStr>::from_str("RED"), Err(()));
}

#[test]
fn a_repository_is_named_in_upper_case() {
    assert_eq!(Repository::Local.name(), "LOCAL");
    assert_eq!(Repository::Redis.name(), "REDIS");
    assert_eq!(Repository::parse(Repository::Redis.name()), Ok(Repository::Redis));
    assert_eq!(Repository::from_upper(&"local".to_string()), Err(()));
    assert_eq!(Repository::from_upper(&"LOCAL".to_string()), Ok(Repository::Local));
    assert_eq!(Repository::parse(""), Err(()));
}
