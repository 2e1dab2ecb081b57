//! The request that fetches one file of a dataset.

use vstd::prelude::*;

verus! {

/// A field of a form: its name and its value.
#[derive(Debug)]
pub struct FormField {
    pub name: String,
    pub value: String,
}

/// A request to the file endpoint: where to post, and the form to post.
#[derive(Debug)]
pub struct FileRequest {
    pub url: String,
    pub form: Vec<FormField>,
}

/// What a [`FileRequest`] holds, as plain values.
pub struct FileRequestView {
    pub url: Seq<char>,
    pub form: Seq<(Seq<char>, Seq<char>)>,
}

impl View for FileRequest {
    type V = FileRequestView;

    open spec fn view(&self) -> FileRequestView {
        FileRequestView {
            url: self.url@,
            form: Seq::new(
                self.form@.len(),
                |i: int| (self.form@[i].name@, self.form@[i].value@),
            ),
        }
    }
}

/// The address of the file endpoint.
pub open spec fn endpoint() -> Seq<char> {
    "https://portal.nersc.gov/project/crcns/download/index.php"@
}

/// The form that asks for the file `filepath` in the name of `username`.
pub open spec fn login_form(
    filepath: Seq<char>,
    username: Seq<char>,
    password: Seq<char>,
) -> Seq<(Seq<char>, Seq<char>)> {
    seq![
        ("username"@, username),
        ("password"@, password),
        ("fn"@, filepath),
        ("submit"@, "Login"@),
    ]
}

/// The request for the file `filepath` in the name of `username`.
pub open spec fn file_request(
    filepath: Seq<char>,
    username: Seq<char>,
    password: Seq<char>,
) -> FileRequestView {
    FileRequestView { url: endpoint(), form: login_form(filepath, username, password) }
}

/// The request for the file `filepath`, a path relative to the root of the
/// repository, in the name of `username`: a form posted to the file
/// endpoint.
pub fn get_crcns_file(filepath: &str, username: &str, password: &str) -> (r: FileRequest)
    ensures
        r@ == file_request(filepath@, username@, password@),
{
    let form: Vec<FormField> = vec![
        FormField { name: "username".to_owned(), value: username.to_owned() },
        FormField { name: "password".to_owned(), value: password.to_owned() },
        FormField { name: "fn".to_owned(), value: filepath.to_owned() },
        FormField { name: "submit".to_owned(), value: "Login".to_owned() },
    ];
    let request = FileRequest {
        url: "https://portal.nersc.gov/project/crcns/download/index.php".to_owned(),
        form,
    };
    assert(request@.form =~= login_form(filepath@, username@, password@));
    request
}

} // verus!
