//! Where records are kept, and what they may be called.
use vstd::prelude::*;

use crate::model::{
    sort_shown, views, Environment, EnvironmentView, Transaction, TransactionView,
};
use crate::order::{ranks, sorted_by};
use crate::path::{
    is_safe_relative, is_under, joined, law_joined_path_stays_below, parts, piece_parts, FsPath,
    PathPart,
};
use crate::text::{
    alphanumeric, is_ascii_alphanumeric, pieces, to_chars, Separator,
};

verus! {

pub open spec fn is_name_char(c: char) -> bool {
    is_ascii_alphanumeric(c) || c == '-' || c == '_' || c == '.'
}

/// Whether an environment may have this name.
pub open spec fn is_valid_name(name: Seq<char>) -> bool {
    &&& 1 <= name.len() <= 48
    &&& forall|i: int| 0 <= i < name.len() ==> is_name_char(#[trigger] name[i])
    &&& name[0] != '.'
}

/// Refuses a name that an environment may not have.
pub fn validate_name(name: &str) -> (r: Result<(), String>)
    ensures
        r is Ok <==> is_valid_name(name@),
        r matches Err(e) ==> e@
            == "invalid environment name; use 1-48 letters, numbers, '.', '-' or '_', and do not start with '.'"@,
{
    let chars = to_chars(name);
    let mut ok = chars.len() >= 1 && chars.len() <= 48 && chars[0] != '.';
    let mut i: usize = 0;
    while i < chars.len()
        invariant
            i <= chars.len(),
            chars@ == name@,
            ok == (1 <= chars@.len() <= 48 && chars@[0] != '.' && forall|k: int|
                0 <= k < i ==> is_name_char(#[trigger] chars@[k])),
        decreases chars.len() - i,
    {
        let c = chars[i];
        if !(alphanumeric(c) || c == '-' || c == '_' || c == '.') {
            ok = false;
        }
        i += 1;
    }
    if ok {
        Ok(())
    } else {
        Err(
            "invalid environment name; use 1-48 letters, numbers, '.', '-' or '_', and do not start with '.'".to_owned(),
        )
    }
}

pub open spec fn is_identifier_char(c: char) -> bool {
    is_ascii_alphanumeric(c) || c == '-' || c == '_'
}

/// Whether a transaction may be looked up by this identifier.
pub open spec fn is_identifier(value: Seq<char>) -> bool {
    &&& 1 <= value.len() <= 96
    &&& forall|i: int| 0 <= i < value.len() ==> is_identifier_char(#[trigger] value[i])
}

/// Whether a transaction may be looked up by this identifier.
pub fn is_safe_identifier(value: &str) -> (r: bool)
    ensures
        r == is_identifier(value@),
{
    let chars = to_chars(value);
    if chars.len() < 1 || chars.len() > 96 {
        return false;
    }
    let mut i: usize = 0;
    while i < chars.len()
        invariant
            i <= chars.len(),
            chars@ == value@,
            forall|k: int| 0 <= k < i ==> is_identifier_char(#[trigger] chars@[k]),
        decreases chars.len() - i,
    {
        let c = chars[i];
        if !(alphanumeric(c) || c == '-' || c == '_') {
            assert(!is_identifier_char(chars@[i as int]));
            return false;
        }
        i += 1;
    }
    true
}

pub open spec fn environment_path(root: Seq<char>, name: Seq<char>) -> Seq<char> {
    joined(joined(root, "environments"@), name)
}

pub open spec fn upper_path(root: Seq<char>, name: Seq<char>) -> Seq<char> {
    joined(environment_path(root, name), "upper"@)
}

pub open spec fn transaction_path(root: Seq<char>, id: Seq<char>) -> Seq<char> {
    joined(joined(root, "transactions"@), id)
}

pub open spec fn backup_path(root: Seq<char>, id: Seq<char>) -> Seq<char> {
    joined(transaction_path(root, id), "backup"@)
}

/// The directory that holds every record.
pub struct Store {
    root: FsPath,
}

impl Store {
    /// The path of the directory.
    pub closed spec fn root_text(&self) -> Seq<char> {
        self.root@
    }

    pub fn new(root: FsPath) -> (r: Store)
        ensures
            r.root_text() == root@,
    {
        Store { root }
    }

    pub fn root(&self) -> (r: &FsPath)
        ensures
            r@ == self.root_text(),
    {
        &self.root
    }

    /// The directory of all environments.
    pub fn environments_dir(&self) -> (r: FsPath)
        ensures
            r@ == joined(self.root_text(), "environments"@),
    {
        self.root.join("environments")
    }

    /// The directory of all transactions.
    pub fn transactions_dir(&self) -> (r: FsPath)
        ensures
            r@ == joined(self.root_text(), "transactions"@),
    {
        self.root.join("transactions")
    }

    /// The directory of the helpers that this program carries with it.
    pub fn helpers_dir(&self) -> (r: FsPath)
        ensures
            r@ == joined(self.root_text(), "helpers"@),
    {
        self.root.join("helpers")
    }

    /// The file that is locked while records are used.
    pub fn lock_path(&self) -> (r: FsPath)
        ensures
            r@ == joined(self.root_text(), ".lock"@),
    {
        self.root.join(".lock")
    }

    pub fn environment_dir(&self, name: &str) -> (r: FsPath)
        ensures
            r@ == environment_path(self.root_text(), name@),
    {
        self.root.join("environments").join(name)
    }

    pub fn upper_dir(&self, name: &str) -> (r: FsPath)
        ensures
            r@ == upper_path(self.root_text(), name@),
    {
        self.environment_dir(name).join("upper")
    }

    pub fn work_dir(&self, name: &str) -> (r: FsPath)
        ensures
            r@ == joined(environment_path(self.root_text(), name@), "work"@),
    {
        self.environment_dir(name).join("work")
    }

    pub fn merged_dir(&self, name: &str) -> (r: FsPath)
        ensures
            r@ == joined(environment_path(self.root_text(), name@), "merged"@),
    {
        self.environment_dir(name).join("merged")
    }

    /// The directory through which a running sandbox is handed its circuits.
    pub fn control_dir(&self, name: &str) -> (r: FsPath)
        ensures
            r@ == joined(environment_path(self.root_text(), name@), "control"@),
    {
        self.environment_dir(name).join("control")
    }

    /// The file that holds the record of an environment.
    pub fn environment_file(&self, name: &str) -> (r: FsPath)
        ensures
            r@ == joined(environment_path(self.root_text(), name@), "environment.json"@),
    {
        self.environment_dir(name).join("environment.json")
    }

    /// The directories that a new environment needs, unless its name is refused or taken.
    pub fn create_environment(
        &self,
        environment: &Environment,
        exists: bool,
    ) -> (r: Result<Vec<FsPath>, String>)
        ensures
            r is Ok <==> is_valid_name(environment@.name) && !exists,
            match r {
                Ok(list) => crate::path::path_texts(list@) == ({
                    let directory = environment_path(self.root_text(), environment@.name);
                    seq![
                        joined(directory, "upper"@),
                        joined(directory, "work"@),
                        joined(directory, "merged"@),
                    ]
                }),
                Err(e) => is_valid_name(environment@.name) ==> e@ == "environment '"@
                    + environment@.name + "' already exists"@,
            },
            !is_valid_name(environment@.name) ==> (r matches Err(e) && e@
                == "invalid environment name; use 1-48 letters, numbers, '.', '-' or '_', and do not start with '.'"@),
    {
        match validate_name(environment.name.as_str()) {
            Err(e) => return Err(e),
            Ok(()) => {},
        }
        if exists {
            return Err(
                "environment '".to_owned().concat(environment.name.as_str()).concat(
                    "' already exists",
                ),
            );
        }
        let name = environment.name.as_str();
        let list = vec![self.upper_dir(name), self.work_dir(name), self.merged_dir(name)];
        assert(crate::path::path_texts(list@) =~= ({
            let directory = environment_path(self.root_text(), environment@.name);
            seq![
                joined(directory, "upper"@),
                joined(directory, "work"@),
                joined(directory, "merged"@),
            ]
        }));
        Ok(list)
    }

    /// The file to read for an environment, unless no environment can have that name.
    pub fn load_environment(&self, name: &str) -> (r: Result<FsPath, String>)
        ensures
            r is Ok <==> is_valid_name(name@),
            match r {
                Ok(path) => path@ == joined(
                    environment_path(self.root_text(), name@),
                    "environment.json"@,
                ),
                Err(e) => e@
                    == "invalid environment name; use 1-48 letters, numbers, '.', '-' or '_', and do not start with '.'"@,
            },
    {
        match validate_name(name) {
            Err(e) => Err(e),
            Ok(()) => Ok(self.environment_file(name)),
        }
    }

    /// The directory to remove with an environment, unless there is none.
    pub fn delete_environment(&self, name: &str, exists: bool) -> (r: Result<FsPath, String>)
        ensures
            r is Ok <==> is_valid_name(name@) && exists,
            match r {
                Ok(path) => path@ == environment_path(self.root_text(), name@),
                Err(e) => e@ == if is_valid_name(name@) {
                    "environment '"@ + name@ + "' does not exist"@
                } else {
                    "invalid environment name; use 1-48 letters, numbers, '.', '-' or '_', and do not start with '.'"@
                },
            },
    {
        match validate_name(name) {
            Err(e) => return Err(e),
            Ok(()) => {},
        }
        if !exists {
            return Err("environment '".to_owned().concat(name).concat("' does not exist"));
        }
        Ok(self.environment_dir(name))
    }

    /// Environments in the order of their names.
    pub fn list_environments(&self, found: Vec<Environment>) -> (r: Vec<Environment>)
        ensures
            views(r@) == sorted_by::<Environment, EnvironmentView>(ranks(found@), views(found@)),
    {
        sort_shown(found)
    }

    pub fn transaction_dir(&self, id: &str) -> (r: FsPath)
        ensures
            r@ == transaction_path(self.root_text(), id@),
    {
        self.root.join("transactions").join(id)
    }

    /// The directory that holds what an apply replaced.
    pub fn backup_dir(&self, id: &str) -> (r: FsPath)
        ensures
            r@ == backup_path(self.root_text(), id@),
    {
        self.transaction_dir(id).join("backup")
    }

    /// The file that holds the journal of an apply.
    pub fn transaction_file(&self, id: &str) -> (r: FsPath)
        ensures
            r@ == joined(transaction_path(self.root_text(), id@), "transaction.json"@),
    {
        self.transaction_dir(id).join("transaction.json")
    }

    /// A file of a transaction, unless no transaction can have that identifier.
    fn checked_file(&self, id: &str, file: &str) -> (r: Result<FsPath, String>)
        ensures
            r is Ok <==> is_identifier(id@),
            match r {
                Ok(path) => path@ == joined(transaction_path(self.root_text(), id@), file@),
                Err(e) => e@ == "invalid transaction id"@,
            },
    {
        if !is_safe_identifier(id) {
            return Err("invalid transaction id".to_owned());
        }
        Ok(self.transaction_dir(id).join(file))
    }

    /// The file to read for a transaction.
    pub fn load_transaction(&self, id: &str) -> (r: Result<FsPath, String>)
        ensures
            r is Ok <==> is_identifier(id@),
            match r {
                Ok(path) => path@ == joined(
                    transaction_path(self.root_text(), id@),
                    "transaction.json"@,
                ),
                Err(e) => e@ == "invalid transaction id"@,
            },
    {
        self.checked_file(id, "transaction.json")
    }

    /// The file whose presence says that a transaction is committed.
    pub fn commit_marker(&self, id: &str) -> (r: Result<FsPath, String>)
        ensures
            r is Ok <==> is_identifier(id@),
            match r {
                Ok(path) => path@ == joined(transaction_path(self.root_text(), id@), "committed"@),
                Err(e) => e@ == "invalid transaction id"@,
            },
    {
        self.checked_file(id, "committed")
    }

    /// The file that shows that an apply is still watched.
    pub fn transaction_lease_path(&self, id: &str) -> (r: Result<FsPath, String>)
        ensures
            r is Ok <==> is_identifier(id@),
            match r {
                Ok(path) => path@ == joined(
                    transaction_path(self.root_text(), id@),
                    "rollback.lease"@,
                ),
                Err(e) => e@ == "invalid transaction id"@,
            },
    {
        self.checked_file(id, "rollback.lease")
    }

    /// Transactions, the latest first.
    pub fn list_transactions(&self, found: Vec<Transaction>) -> (r: Vec<Transaction>)
        ensures
            views(r@) == sorted_by::<Transaction, TransactionView>(ranks(found@), views(found@)),
    {
        sort_shown(found)
    }
}

proof fn lemma_one_piece(s: Seq<char>)
    requires
        forall|i: int| 0 <= i < s.len() ==> s[i] != '/',
    ensures
        pieces(s, Separator::Char('/')) == seq![s],
    decreases s.len(),
{
    if s.len() > 0 {
        lemma_one_piece(s.drop_last());
        assert(seq![s.drop_last()].drop_last() =~= Seq::<Seq<char>>::empty());
        assert(s.drop_last().push(s.last()) =~= s);
        assert(pieces(s, Separator::Char('/')) =~= seq![s]);
    } else {
        assert(s =~= Seq::empty());
    }
}

proof fn lemma_one_part(s: Seq<char>)
    requires
        s.len() > 0,
        forall|i: int| 0 <= i < s.len() ==> s[i] != '/',
        s[0] != '.',
    ensures
        parts(s) == seq![PathPart::Normal(s)],
        is_safe_relative(s),
{
    lemma_one_piece(s);
    reveal_strlit(".");
    reveal_strlit("..");
    assert(s != "."@ && s != ".."@) by {
        assert("."@[0] == '.');
        assert(".."@[0] == '.');
    }
    assert(seq![s].drop_last() =~= Seq::<Seq<char>>::empty());
    assert(piece_parts(seq![s].drop_last()) =~= Seq::<PathPart>::empty());
    assert(seq![s].last() == s);
    assert(piece_parts(seq![s]) =~= seq![PathPart::Normal(s)]);
    assert(!parts(s).contains(PathPart::Parent));
}

/// The directory of an environment lies directly below the directory of all environments, under
/// the name of the environment, so no name leads elsewhere.
pub proof fn law_names_stay_in_the_store(root: Seq<char>, name: Seq<char>)
    requires
        root.len() > 0,
        is_valid_name(name),
    ensures
        parts(environment_path(root, name)) == parts(joined(root, "environments"@)).push(
            PathPart::Normal(name),
        ),
{
    assert(forall|i: int| 0 <= i < name.len() ==> is_name_char(#[trigger] name[i]));
    lemma_one_part(name);
    let base = joined(root, "environments"@);
    reveal_strlit("environments");
    law_joined_path_stays_below(base, name);
    lemma_keep_one(PathPart::Normal(name));
    assert(parts(environment_path(root, name)) =~= parts(base).push(PathPart::Normal(name)));
}

proof fn lemma_keep_one(p: PathPart)
    requires
        p != PathPart::Current,
    ensures
        seq![p].filter(|q: PathPart| q != PathPart::Current) == seq![p],
{
    reveal(Seq::filter);
    let keep = |q: PathPart| q != PathPart::Current;
    assert(seq![p].drop_last() =~= Seq::<PathPart>::empty());
    assert(seq![p].drop_last().filter(keep) =~= Seq::<PathPart>::empty());
    assert(seq![p].filter(keep) =~= seq![p]);
}

/// Two environments of different names never share a directory.
pub proof fn law_names_do_not_collide(root: Seq<char>, a: Seq<char>, b: Seq<char>)
    requires
        root.len() > 0,
        is_valid_name(a),
        is_valid_name(b),
        a != b,
    ensures
        parts(environment_path(root, a)) != parts(environment_path(root, b)),
{
    law_names_stay_in_the_store(root, a);
    law_names_stay_in_the_store(root, b);
    let base = parts(joined(root, "environments"@));
    assert(base.push(PathPart::Normal(a)).last() == PathPart::Normal(a));
    assert(base.push(PathPart::Normal(b)).last() == PathPart::Normal(b));
}

/// The directory of a transaction lies directly below the directory of all transactions, under
/// its identifier.
pub proof fn law_identifiers_stay_in_the_store(root: Seq<char>, id: Seq<char>)
    requires
        root.len() > 0,
        is_identifier(id),
    ensures
        parts(transaction_path(root, id)) == parts(joined(root, "transactions"@)).push(
            PathPart::Normal(id),
        ),
{
    assert(forall|i: int| 0 <= i < id.len() ==> is_identifier_char(#[trigger] id[i]));
    lemma_one_part(id);
    let base = joined(root, "transactions"@);
    reveal_strlit("transactions");
    law_joined_path_stays_below(base, id);
    lemma_keep_one(PathPart::Normal(id));
    assert(parts(transaction_path(root, id)) =~= parts(base).push(PathPart::Normal(id)));
}

proof fn lemma_directory_parts(root: Seq<char>)
    requires
        root.len() > 0,
    ensures
        parts(joined(root, "environments"@)) == parts(root).push(
            PathPart::Normal("environments"@),
        ),
        parts(joined(root, "transactions"@)) == parts(root).push(
            PathPart::Normal("transactions"@),
        ),
        "environments"@ != "transactions"@,
{
    reveal_strlit("environments");
    reveal_strlit("transactions");
    assert("environments"@[0] != "transactions"@[0]);
    lemma_one_part("environments"@);
    law_joined_path_stays_below(root, "environments"@);
    lemma_keep_one(PathPart::Normal("environments"@));
    lemma_one_part("transactions"@);
    law_joined_path_stays_below(root, "transactions"@);
    lemma_keep_one(PathPart::Normal("transactions"@));
    assert(parts(joined(root, "environments"@)) =~= parts(root).push(
        PathPart::Normal("environments"@),
    ));
    assert(parts(joined(root, "transactions"@)) =~= parts(root).push(
        PathPart::Normal("transactions"@),
    ));
}

/// The record and the backups of a transaction lie outside the directory of every environment,
/// so that an environment can be deleted and what it applied can still be rolled back.
pub proof fn law_transactions_outlive_environments(
    root: Seq<char>,
    name: Seq<char>,
    id: Seq<char>,
)
    requires
        root.len() > 0,
        is_valid_name(name),
        is_identifier(id),
    ensures
        !is_under(transaction_path(root, id), environment_path(root, name)),
        !is_under(backup_path(root, id), environment_path(root, name)),
        !is_under(environment_path(root, name), transaction_path(root, id)),
{
    law_names_stay_in_the_store(root, name);
    law_identifiers_stay_in_the_store(root, id);
    lemma_directory_parts(root);
    reveal_strlit("backup");
    lemma_one_part("backup"@);
    let directory = environment_path(root, name);
    let record = transaction_path(root, id);
    assert(record.len() > 0);
    law_joined_path_stays_below(record, "backup"@);
    let at = parts(root).len() as int;
    let backup = parts(backup_path(root, id));
    assert(parts(directory)[at] == PathPart::Normal("environments"@));
    assert(parts(record)[at] == PathPart::Normal("transactions"@));
    assert(backup.take(parts(record).len() as int)[at] == backup[at]);
    if is_under(record, directory) {
        assert(parts(record).take(parts(directory).len() as int)[at] == parts(record)[at]);
    }
    if is_under(backup_path(root, id), directory) {
        assert(backup.take(parts(directory).len() as int)[at] == backup[at]);
    }
    if is_under(directory, record) {
        assert(parts(directory).take(parts(record).len() as int)[at] == parts(directory)[at]);
    }
}

} // verus!
