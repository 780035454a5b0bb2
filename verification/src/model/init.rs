use vstd::prelude::*;

verus! {

/// The contexts of the databases of a server, under a root directory.
#[derive(Debug, Clone)]
pub struct InitContext {
    pub root: String,
    pub dbs_ctx: Vec<DatabaseInitContext>,
}

impl InitContext {
    /// The context of the databases `dbs_ctx`, whose directories were made
    /// under `root`.
    pub fn new(root: &str, dbs_ctx: Vec<DatabaseInitContext>) -> (r: Self)
        ensures
            r.root@ == root@,
            r.dbs_ctx == dbs_ctx,
    {
        Self { root: root.to_owned(), dbs_ctx }
    }
}

/// Where the files of one database stand: its directory and the names of
/// its stores and indexes.
#[derive(Debug, Clone)]
pub struct DatabaseInitContext {
    pub db_name: String,
    db_dir: String,
    node_store_name: String,
    relationships_store_name: String,
    properties_store_name: String,
    dynamic_store_name: String,
    nodes_labels_index_name: String,
    relationships_types_index_name: String,
    labels_store_name: String,
    meta_data_index_store_name: String,
    meta_data_values_store_name: String,
}

#[verifier::external_type_specification]
#[verifier::external_body]
pub struct ExPathBuf(std::path::PathBuf);

/// `s` ends with the characters of `suffix`.
pub open spec fn ends_with(s: Seq<char>, suffix: Seq<char>) -> bool {
    s.len() >= suffix.len() && s.subrange(s.len() - suffix.len(), s.len() as int) == suffix
}

/// `name` is one ordinary path component on every platform: not empty, not
/// `.` or `..`, and holding no separator (`/` or `\`) and no drive colon.
pub open spec fn normal_name(name: Seq<char>) -> bool {
    &&& name.len() > 0
    &&& name != seq!['.']
    &&& name != seq!['.', '.']
    &&& forall|i: int| 0 <= i < name.len() ==> name[i] != '/' && name[i] != '\\' && name[i] != ':'
}

/// A `PathBuf` built from text only, with what is known of it: `last` is
/// the name pushed last when that piece was an ordinary component.
pub struct TextPath {
    buf: std::path::PathBuf,
    last: Ghost<Option<Seq<char>>>,
}

impl TextPath {
    /// The ordinary component pushed last, if the last piece was one.
    pub closed spec fn last_name(&self) -> Option<Seq<char>> {
        self.last@
    }
}

/// Calls `std::path::PathBuf::new`: an empty path, built from no text.
#[verifier::external_body]
fn text_path_new() -> (r: TextPath)
    ensures
        r.last_name() is None,
{
    TextPath { buf: std::path::PathBuf::new(), last: Ghost(None) }
}

/// Calls `std::path::PathBuf::push` with the text `path`. Whatever the
/// platform, a relative path of one ordinary component is appended (after a
/// separator when one is needed) and stays the path's last component; the
/// separator, prefixes, absolute paths and, on Windows, the normalisation of
/// verbatim paths (which drops `.` and `..`) are not modelled, so after any
/// other piece nothing is known of the end of the path.
#[verifier::external_body]
fn text_path_push(p: &mut TextPath, path: &str)
    ensures
        final(p).last_name() == if normal_name(path@) {
            Some(path@)
        } else {
            None::<Seq<char>>
        },
{
    p.buf.push(path);
}

/// Calls `std::path::Path::to_str` and copies the text into a `String`. The
/// path holds text only (every piece pushed was a `&str`), so it is valid
/// Unicode and the text is there; it ends with the ordinary component pushed
/// last.
#[verifier::external_body]
fn text_path_to_string(p: &TextPath) -> (r: Option<String>)
    ensures
        r is Some,
        r matches Some(t) ==> (p.last_name() matches Some(n) ==> ends_with(t@, n)),
{
    p.buf.to_str().map(String::from)
}

/// Joins `file` to the directory `dir` as `std::path::PathBuf::push` does,
/// and gives the path as text: always some text, which ends with `file`
/// when `file` is an ordinary name.
fn build_path(dir: &str, file: &str) -> (r: Option<String>)
    ensures
        r is Some,
        r matches Some(t) ==> (normal_name(file@) ==> ends_with(t@, file@)),
{
    let mut file_path = text_path_new();
    text_path_push(&mut file_path, dir);
    text_path_push(&mut file_path, file);
    text_path_to_string(&file_path)
}

impl DatabaseInitContext {
    /// The name of the database.
    pub closed spec fn spec_db_name(&self) -> Seq<char> {
        self.db_name@
    }

    /// The directory of the database.
    pub closed spec fn spec_dir(&self) -> Seq<char> {
        self.db_dir@
    }

    /// The file names of the stores and indexes, in the order of the getters.
    pub closed spec fn spec_names(&self) -> Seq<Seq<char>> {
        seq![
            self.node_store_name@,
            self.relationships_store_name@,
            self.properties_store_name@,
            self.dynamic_store_name@,
            self.nodes_labels_index_name@,
            self.relationships_types_index_name@,
            self.labels_store_name@,
            self.meta_data_index_store_name@,
            self.meta_data_values_store_name@,
        ]
    }

    /// The context of the database `db_name` whose directory, already made,
    /// is `db_dir`.
    pub fn with_dir(db_name: &str, db_dir: &str) -> (r: Self)
        ensures
            r.spec_db_name() == db_name@,
            r.spec_dir() == db_dir@,
            r.spec_names() == seq![
                "nodes.db"@,
                "relationships.db"@,
                "properties.db"@,
                "dynamic.db"@,
                "nodes_labels_index.db"@,
                "relationships_types_index.db"@,
                "labels.db"@,
                "meta_data_index.db"@,
                "meta_data_values.db"@,
            ],
            forall|k: int| 0 <= k < 9 ==> normal_name(#[trigger] r.spec_names()[k]),
    {
        proof {
            reveal_strlit("nodes.db");
            reveal_strlit("relationships.db");
            reveal_strlit("properties.db");
            reveal_strlit("dynamic.db");
            reveal_strlit("nodes_labels_index.db");
            reveal_strlit("relationships_types_index.db");
            reveal_strlit("labels.db");
            reveal_strlit("meta_data_index.db");
            reveal_strlit("meta_data_values.db");
        }
        DatabaseInitContext {
            db_name: db_name.to_owned(),
            db_dir: db_dir.to_owned(),
            node_store_name: "nodes.db".to_owned(),
            relationships_store_name: "relationships.db".to_owned(),
            properties_store_name: "properties.db".to_owned(),
            dynamic_store_name: "dynamic.db".to_owned(),
            nodes_labels_index_name: "nodes_labels_index.db".to_owned(),
            relationships_types_index_name: "relationships_types_index.db".to_owned(),
            labels_store_name: "labels.db".to_owned(),
            meta_data_index_store_name: "meta_data_index.db".to_owned(),
            meta_data_values_store_name: "meta_data_values.db".to_owned(),
        }
    }

    pub fn get_nodes_store_path(&self) -> (r: Option<String>)
        ensures
            r is Some,
            r matches Some(p) ==> (normal_name(self.spec_names()[0]) ==> ends_with(p@, self.spec_names()[0])),
    {
        build_path(self.db_dir.as_str(), &self.node_store_name)
    }

    pub fn get_relationships_store_path(&self) -> (r: Option<String>)
        ensures
            r is Some,
            r matches Some(p) ==> (normal_name(self.spec_names()[1]) ==> ends_with(p@, self.spec_names()[1])),
    {
        build_path(self.db_dir.as_str(), &self.relationships_store_name)
    }

    pub fn get_properties_store_path(&self) -> (r: Option<String>)
        ensures
            r is Some,
            r matches Some(p) ==> (normal_name(self.spec_names()[2]) ==> ends_with(p@, self.spec_names()[2])),
    {
        build_path(self.db_dir.as_str(), &self.properties_store_name)
    }

    pub fn get_dynamic_store_path(&self) -> (r: Option<String>)
        ensures
            r is Some,
            r matches Some(p) ==> (normal_name(self.spec_names()[3]) ==> ends_with(p@, self.spec_names()[3])),
    {
        build_path(self.db_dir.as_str(), &self.dynamic_store_name)
    }

    pub fn get_nodes_labels_index_path(&self) -> (r: Option<String>)
        ensures
            r is Some,
            r matches Some(p) ==> (normal_name(self.spec_names()[4]) ==> ends_with(p@, self.spec_names()[4])),
    {
        build_path(self.db_dir.as_str(), &self.nodes_labels_index_name)
    }

    pub fn get_relationships_types_index_path(&self) -> (r: Option<String>)
        ensures
            r is Some,
            r matches Some(p) ==> (normal_name(self.spec_names()[5]) ==> ends_with(p@, self.spec_names()[5])),
    {
        build_path(self.db_dir.as_str(), &self.relationships_types_index_name)
    }

    pub fn get_labels_store_path(&self) -> (r: Option<String>)
        ensures
            r is Some,
            r matches Some(p) ==> (normal_name(self.spec_names()[6]) ==> ends_with(p@, self.spec_names()[6])),
    {
        build_path(self.db_dir.as_str(), &self.labels_store_name)
    }

    pub fn get_meta_data_index_store_path(&self) -> (r: Option<String>)
        ensures
            r is Some,
            r matches Some(p) ==> (normal_name(self.spec_names()[7]) ==> ends_with(p@, self.spec_names()[7])),
    {
        build_path(self.db_dir.as_str(), &self.meta_data_index_store_name)
    }

    pub fn get_meta_data_values_store_path(&self) -> (r: Option<String>)
        ensures
            r is Some,
            r matches Some(p) ==> (normal_name(self.spec_names()[8]) ==> ends_with(p@, self.spec_names()[8])),
    {
        build_path(self.db_dir.as_str(), &self.meta_data_values_store_name)
    }
}

} // verus!
