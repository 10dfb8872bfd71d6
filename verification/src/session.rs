//! Where the files of a session lie: the uploaded archive, the directory it
//! is unpacked to, and the database of the session.

use vstd::prelude::*;

verus! {

/// Characters that may not stand in a file name: the separators and
/// wildcards of the common file systems, and the control characters.
pub open spec fn is_unsafe_char(c: char) -> bool {
    let u = c as u32;
    ||| c == '/'
    ||| c == '?'
    ||| c == '<'
    ||| c == '>'
    ||| c == '\\'
    ||| c == ':'
    ||| c == '*'
    ||| c == '|'
    ||| c == '"'
    ||| u <= 0x1f
    ||| 0x80 <= u <= 0x9f
}

/// A name that can stand as one component of a path.
pub open spec fn is_safe_name(name: Seq<char>) -> bool {
    &&& name.len() <= 255
    &&& forall|i: int| 0 <= i < name.len() ==> !is_unsafe_char(#[trigger] name[i])
}

/// `sanitize_filename::sanitize`, which removes from `name` the characters
/// `/ ? < > \ : * | "` and the control characters, then a name made of dots
/// alone and, on Windows, reserved device names and trailing dots and
/// spaces, and cuts what is left to 255 bytes. Which of these steps apply
/// depends on the platform, so the contract states only what holds on each:
/// no unsafe character is left, and at most 255 characters.
#[verifier::external_body]
fn sanitized(name: &str) -> (r: String)
    ensures
        is_safe_name(r@),
{
    sanitize_filename::sanitize(name)
}

/// The name under which an upload is stored when it brings none.
pub open spec fn default_upload_name() -> Seq<char> {
    "upload.zip"@
}

/// `name` inside the directory `dir`.
pub open spec fn inside(dir: Seq<char>, name: Seq<char>) -> Seq<char> {
    dir + "/"@ + name
}

/// The path of `name` inside `dir`.
pub fn path_inside(dir: &str, name: &str) -> (r: String)
    ensures
        r@ == inside(dir@, name@),
{
    let mut path = String::from_str(dir);
    path.append("/");
    path.append(name);
    path
}

/// Where an upload is stored whose file name, already made safe, is
/// `safe_name`: under that name in `temp_dir`, or as `upload.zip` there
/// where it has no name.
pub fn upload_target(temp_dir: &str, safe_name: Option<&str>) -> (r: String)
    ensures
        r@ == inside(
            temp_dir@,
            match safe_name {
                Some(name) => name@,
                None => default_upload_name(),
            },
        ),
{
    match safe_name {
        Some(name) => path_inside(temp_dir, name),
        None => path_inside(temp_dir, "upload.zip"),
    }
}

/// Where an upload is stored: in `temp_dir`, under the file name that it
/// brings, made safe, or as `upload.zip` where it brings none. Whatever
/// the name it brings, the file lies directly in `temp_dir`.
pub fn upload_path(temp_dir: &str, file_name: Option<&str>) -> (r: String)
    ensures
        match file_name {
            Some(_) => exists|name: Seq<char>|
                is_safe_name(name) && r@ == #[trigger] inside(temp_dir@, name),
            None => r@ == inside(temp_dir@, default_upload_name()),
        },
{
    match file_name {
        Some(given) => {
            let name = sanitized(given);
            let r = upload_target(temp_dir, Some(name.as_str()));
            assert(is_safe_name(name@) && r@ == inside(temp_dir@, name@));
            r
        },
        None => upload_target(temp_dir, None),
    }
}

/// The directory that an uploaded archive is unpacked to.
pub fn extract_dir(temp_dir: &str) -> (r: String)
    ensures
        r@ == inside(temp_dir@, "extracted"@),
{
    path_inside(temp_dir, "extracted")
}

/// The database file of a session: `<user id>.sqlite` in `./temp_dbs`.
pub open spec fn database_path_of(user_id: Seq<char>) -> Seq<char> {
    "./temp_dbs/"@ + user_id + ".sqlite"@
}

/// The database file of a session.
pub fn database_path(user_id: &str) -> (r: String)
    ensures
        r@ == database_path_of(user_id@),
{
    let mut path = String::from_str("./temp_dbs/");
    path.append(user_id);
    path.append(".sqlite");
    path
}

/// The address under which the store opens a database file.
pub fn database_url(db_path: &str) -> (r: String)
    ensures
        r@ == "sqlite://"@ + db_path@,
{
    let mut url = String::from_str("sqlite://");
    url.append(db_path);
    url
}

/// `uuid::Uuid`, the 128 bits that name a session. Nothing of its inside is
/// stated.
#[verifier::external_type_specification]
#[verifier::external_body]
pub struct ExUuid(uuid::Uuid);

/// A digit, or a letter from `a` to `f`.
pub open spec fn is_lower_hex(c: char) -> bool {
    '0' <= c <= '9' || 'a' <= c <= 'f'
}

/// 36 characters: `-` at the positions 8, 13, 18 and 23, and a digit or a
/// letter from `a` to `f` at every other.
pub open spec fn is_hyphenated_hex(s: Seq<char>) -> bool {
    &&& s.len() == 36
    &&& forall|i: int|
        0 <= i < 36 ==> if i == 8 || i == 13 || i == 18 || i == 23 {
            #[trigger] s[i] == '-'
        } else {
            is_lower_hex(s[i])
        }
}

/// `Uuid::to_string`, which writes the 16 bytes as 32 lower-case
/// hexadecimal digits in groups of 8, 4, 4, 4 and 12 with a `-` between
/// the groups. The contract states the shape, not which digits.
#[verifier::external_body]
fn hyphenated(id: &uuid::Uuid) -> (r: String)
    ensures
        is_hyphenated_hex(r@),
{
    id.to_string()
}

/// A session id of that shape can stand as a file name.
pub proof fn lemma_hyphenated_is_safe(s: Seq<char>)
    requires
        is_hyphenated_hex(s),
    ensures
        is_safe_name(s),
        s.len() > 0,
{
    assert forall|i: int| 0 <= i < s.len() implies !is_unsafe_char(#[trigger] s[i]) by {
        if i == 8 || i == 13 || i == 18 || i == 23 {
            assert(s[i] == '-');
        } else {
            assert(is_lower_hex(s[i]));
        }
    }
}

/// The names that belong to one session.
#[derive(Debug)]
pub struct SessionFiles {
    pub user_id: String,
    pub db_path: String,
    pub db_url: String,
}

/// The id of the session that `id` names, with its database file, which
/// lies directly in `./temp_dbs`, and the address of that file.
pub fn session_files(id: &uuid::Uuid) -> (r: SessionFiles)
    ensures
        is_hyphenated_hex(r.user_id@),
        is_safe_name(r.user_id@),
        r.db_path@ == database_path_of(r.user_id@),
        r.db_url@ == "sqlite://"@ + r.db_path@,
{
    let user_id = hyphenated(id);
    proof {
        lemma_hyphenated_is_safe(user_id@);
    }
    let db_path = database_path(user_id.as_str());
    let db_url = database_url(db_path.as_str());
    SessionFiles { user_id, db_path, db_url }
}

} // verus!
