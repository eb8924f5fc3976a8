//! Which environment variables hold the database settings.
use vstd::prelude::*;

verus! {

/// Value of the environment selector that picks the production database.
pub const PRODUCTION_STRING: &'static str = "PRODUCTION";

/// Value of the environment selector that picks the test database.
pub const TEST_STRING: &'static str = "TEST";

/// Names of the environment variables that hold the database settings.
pub struct DbVars {
    pub host_var: &'static str,
    pub db_var: &'static str,
    pub user_var: &'static str,
    pub pass_var: &'static str,
}

/// `v` names the variables of the test database.
pub open spec fn is_test_vars(v: DbVars) -> bool {
    &&& v.host_var@ == "SQL_HOST_TEST"@
    &&& v.db_var@ == "SQL_DB_NAME_TEST"@
    &&& v.user_var@ == "SQL_USERNAME_TEST"@
    &&& v.pass_var@ == "SQL_PASSWORD_TEST"@
}

/// `v` names the variables of the production database.
pub open spec fn is_prod_vars(v: DbVars) -> bool {
    &&& v.host_var@ == "SQL_HOST"@
    &&& v.db_var@ == "SQL_DB_NAME"@
    &&& v.user_var@ == "SQL_USERNAME"@
    &&& v.pass_var@ == "SQL_PASSWORD"@
}

impl DbVars {
    /// The variables of the test database.
    pub fn new_test() -> (r: DbVars)
        ensures
            is_test_vars(r),
    {
        DbVars {
            host_var: "SQL_HOST_TEST",
            db_var: "SQL_DB_NAME_TEST",
            user_var: "SQL_USERNAME_TEST",
            pass_var: "SQL_PASSWORD_TEST",
        }
    }

    /// The variables of the production database.
    pub fn new_prod() -> (r: DbVars)
        ensures
            is_prod_vars(r),
    {
        DbVars {
            host_var: "SQL_HOST",
            db_var: "SQL_DB_NAME",
            user_var: "SQL_USERNAME",
            pass_var: "SQL_PASSWORD",
        }
    }
}

/// The variables for the environment named `current_env`: production ones
/// for `PRODUCTION`, test ones for anything else.
pub fn db_vars_for(current_env: &String) -> (r: DbVars)
    ensures
        current_env@ == PRODUCTION_STRING@ ==> is_prod_vars(r),
        current_env@ != PRODUCTION_STRING@ ==> is_test_vars(r),
{
    let production = PRODUCTION_STRING.to_string();
    if *current_env == production {
        DbVars::new_prod()
    } else {
        DbVars::new_test()
    }
}

/// Settings of the database connection.
pub struct DbValues {
    pub host: String,
    pub db_name: String,
    pub user: String,
    pub pass: String,
}

} // verus!
