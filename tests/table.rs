use supply_chain::account::{AccountId, Directory};
use supply_chain::index::{OwnerKind, OwnerRow};
use supply_chain::table::{
    build_index, parse_decimal, parse_members, parse_owners, parse_packages, parse_teams, parse_users,
    split_ranges, ParseError, TableKind,
};

#[test]
fn fields_split_on_separator() {
    let b = b"a,bc,,d";
    let r = split_ranges(b, 0, b.len(), b',');
    assert_eq!(r, vec![(0, 1), (2, 4), (5, 5), (6, 7)]);
    assert_eq!(split_ranges(b, 0, 0, b','), vec![(0, 0)]);
}

#[test]
fn decimals() {
    assert_eq!(parse_decimal(b"12345", 0, 5), Some(12345));
    assert_eq!(parse_decimal(b"x42", 1, 3), Some(42));
    assert_eq!(parse_decimal(b"", 0, 0), None);
    assert_eq!(parse_decimal(b"4a", 0, 2), None);
    assert_eq!(parse_decimal(b"18446744073709551615", 0, 20), Some(u64::MAX));
    assert_eq!(parse_decimal(b"18446744073709551616", 0, 20), None);
}

#[test]
fn packages_with_extra_columns() {
    let text = b"created_at,name,id\n2020,serde,7\n2021,rand,9\n";
    let rows = parse_packages(text).unwrap();
    assert_eq!(rows.len(), 2);
    assert_eq!((rows[0].id, rows[0].name.as_str()), (7, "serde"));
    assert_eq!((rows[1].id, rows[1].name.as_str()), (9, "rand"));
}

#[test]
fn owners_kinds() {
    let text = b"crate_id,created_at,owner_id,owner_kind\n1,x,5,0\n\n2,y,6,1\n";
    let rows = parse_owners(text).unwrap();
    assert_eq!(
        rows,
        vec![
            OwnerRow { package_id: 1, owner_id: 5, kind: OwnerKind::User },
            OwnerRow { package_id: 2, owner_id: 6, kind: OwnerKind::Team },
        ]
    );
    let bad = b"crate_id,owner_id,owner_kind\n1,5,0\n1,5,2\n";
    assert_eq!(
        parse_owners(bad).unwrap_err(),
        ParseError::Malformed { table: TableKind::Owners, line: 2 }
    );
}

#[test]
fn missing_column_is_malformed() {
    assert_eq!(
        parse_members(b"team_id\n1\n").unwrap_err(),
        ParseError::Malformed { table: TableKind::Members, line: 0 }
    );
    assert_eq!(
        parse_packages(b"").unwrap_err(),
        ParseError::Malformed { table: TableKind::Packages, line: 0 }
    );
}

#[test]
fn undecodable_rows_are_malformed() {
    assert_eq!(
        parse_packages(b"id,name\n1,a\nx,b\n").unwrap_err(),
        ParseError::Malformed { table: TableKind::Packages, line: 2 }
    );
    assert_eq!(
        parse_packages(b"id,name\n1\n").unwrap_err(),
        ParseError::Malformed { table: TableKind::Packages, line: 1 }
    );
    assert_eq!(
        parse_packages(b"id,name\n1,\xff\n").unwrap_err(),
        ParseError::Malformed { table: TableKind::Packages, line: 1 }
    );
}

#[test]
fn index_from_table_texts() {
    let packages = b"id,name\n1,serde\n2,rand\n";
    let owners = b"crate_id,owner_id,owner_kind\n1,101,0\n2,201,1\n";
    let members = b"team_id,user_id\n201,102\n";
    let ix = build_index(packages, owners, members).unwrap();
    assert_eq!(ix.publishers_of(&"serde".to_string()).unwrap().to_vec(), vec![AccountId::User(101)]);
    assert_eq!(ix.publishers_of(&"rand".to_string()).unwrap().to_vec(), vec![AccountId::User(102)]);
    assert_eq!(
        build_index(packages, b"crate_id,owner_id\n", members).unwrap_err(),
        ParseError::Malformed { table: TableKind::Owners, line: 0 }
    );
}

#[test]
fn users_and_teams_tables() {
    let users = parse_users(b"id,login,name,avatar\n101,alice,Alice A,x\n102,bob,Bob B,y\n").unwrap();
    let teams = parse_teams(b"id,org,name\n201,acme,core\n").unwrap();
    assert_eq!(users.len(), 2);
    assert_eq!((users[1].id, users[1].handle.as_str(), users[1].name.as_str()), (102, "bob", "Bob B"));
    let dir = Directory { users, teams };
    assert_eq!(dir.details(AccountId::User(101)).unwrap().handle, "alice");
    assert_eq!(dir.details(AccountId::Team(201)).unwrap().handle, "acme");
    assert!(dir.details(AccountId::Team(101)).is_none());
    assert_eq!(
        parse_teams(b"id,login,name\n1,a,b\n").unwrap_err(),
        ParseError::Malformed { table: TableKind::Teams, line: 0 }
    );
    assert_eq!(
        parse_users(b"id,login,name\n1,a\n").unwrap_err(),
        ParseError::Malformed { table: TableKind::Users, line: 1 }
    );
}

#[test]
fn quoted_fields_keep_commas_and_line_breaks() {
    let b = b"a,\"b,c\",d";
    assert_eq!(split_ranges(b, 0, b.len(), b','), vec![(0, 1), (2, 7), (8, 9)]);
    let users = parse_users(
        b"id,login,name\n1,alice,\"Smith, Alice\"\n2,\"bo\"\"b\",\"two\nlines\"\n\"3\",carol,\"\"\n",
    )
    .unwrap();
    assert_eq!(users.len(), 3);
    assert_eq!(users[0].name, "Smith, Alice");
    assert_eq!(users[1].handle, "bo\"b");
    assert_eq!(users[1].name, "two\nlines");
    assert_eq!(users[2].id, 3);
    assert_eq!(users[2].name, "");
}
