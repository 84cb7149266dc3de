//! Reading `gpg --list-secret-keys --with-colons` output.
use vstd::prelude::*;

use crate::text::{
    chars_of, has_prefix, index_of_char, insert_sorted, lemma_find_char_from, lines, lines_of, lower_chars,
    lowercase, find_char, seq_lt, seqs_of, slice_chars, sorted_strict, split_char, split_on, starts_with,
    string_of, views_of,
};

verus! {

/// Result of locating a GPG signing key.
#[derive(Debug)]
pub struct KeyLookup {
    /// True if `gpg` ran and reported a matching secret key.
    pub found: bool,
    /// E-mail addresses on the key's user IDs, lower case, sorted, without duplicates.
    pub emails: Vec<String>,
    /// True if the `gpg` binary itself could not be executed.
    pub gpg_missing: bool,
}

/// What running `gpg --list-secret-keys --with-colons <query>` gave.
#[derive(Debug)]
pub enum GpgOutput {
    /// The `gpg` binary could not be executed.
    Unavailable,
    /// `gpg` ran and exited with failure.
    Failed,
    /// `gpg` succeeded with this standard output.
    Listing(String),
}

/// The address between the first `<` and the next `>` of a
/// `Name (comment) <addr>` user-id string.
pub open spec fn email_in(uid: Seq<char>) -> Option<Seq<char>> {
    match find_char(uid, '<') {
        Some(start) => {
            let rest = uid.skip(start + 1);
            match find_char(rest, '>') {
                Some(end) => Some(rest.take(end)),
                None => None,
            }
        },
        None => None,
    }
}

/// The lower-case e-mail of a `uid:` record: the address in its tenth
/// colon-separated field.
pub open spec fn uid_email(line: Seq<char>) -> Option<Seq<char>> {
    if !starts_with(line, "uid:"@) {
        None
    } else {
        let fields = split_char(line, ':');
        if fields.len() > 9 {
            match email_in(fields[9]) {
                Some(e) => Some(lowercase(e)),
                None => None,
            }
        } else {
            None
        }
    }
}

/// The e-mails of the `uid` records among the first `n` lines of `text`.
pub open spec fn uid_emails_upto(text: Seq<char>, n: int) -> Set<Seq<char>> {
    Set::new(|e: Seq<char>| exists|i: int| 0 <= i < n && i < lines(text).len() && uid_email(#[trigger] lines(text)[i]) == Some(e))
}

/// The e-mails of all `uid` records of `text`.
pub open spec fn uid_emails(text: Seq<char>) -> Set<Seq<char>> {
    uid_emails_upto(text, lines(text).len() as int)
}

/// Whether some line of `text` is a `sec:` record (a secret key).
pub open spec fn has_secret_key(text: Seq<char>) -> bool {
    exists|i: int| 0 <= i < lines(text).len() && starts_with(#[trigger] lines(text)[i], "sec:"@)
}

/// Pulls the `<addr>` out of a `Name (comment) <addr>` user-id string.
pub fn extract_email(uid: &[char]) -> (r: Option<Vec<char>>)
    ensures
        match r {
            Some(e) => email_in(uid@) == Some(e@),
            None => email_in(uid@).is_none(),
        },
{
    proof { lemma_find_char_from(uid@, '<', 0); }
    let start = match index_of_char(uid, '<') {
        Some(s) => s,
        None => return None,
    };
    assert(start < uid@.len());
    assert(start < uid.len());
    let rest = slice_chars(uid, start + 1, uid.len());
    assert(rest@ =~= uid@.skip(start + 1));
    let end = match index_of_char(rest.as_slice(), '>') {
        Some(e) => e,
        None => return None,
    };
    proof { lemma_find_char_from(rest@, '>', 0); }
    let email = slice_chars(rest.as_slice(), 0, end);
    assert(email@ =~= rest@.take(end as int));
    Some(email)
}

fn uid_email_of(line: &[char]) -> (r: Option<Vec<char>>)
    ensures
        match r {
            Some(e) => uid_email(line@) == Some(e@),
            None => uid_email(line@).is_none(),
        },
{
    let prefix = chars_of("uid:");
    proof { reveal_strlit("uid:"); }
    if !has_prefix(line, prefix.as_slice()) {
        return None;
    }
    let fields = split_on(line, ':');
    if fields.len() <= 9 {
        return None;
    }
    match extract_email(fields[9].as_slice()) {
        Some(e) => Some(lower_chars(e.as_slice())),
        None => None,
    }
}

/// Extracts the e-mails from the `uid` records of `gpg --with-colons`
/// output: lower case, sorted, without duplicates.
pub fn parse_uid_emails(text: &str) -> (r: Vec<String>)
    ensures
        sorted_strict(views_of(r@)),
        views_of(r@).to_set() == uid_emails(text@),
{
    let chars = chars_of(text);
    let ls = lines_of(chars.as_slice());
    let mut acc: Vec<Vec<char>> = Vec::new();
    let mut i: usize = 0;
    assert(seqs_of(acc@).to_set() =~= uid_emails_upto(text@, 0));
    while i < ls.len()
        invariant
            chars@ == text@,
            ls@.len() == lines(text@).len(),
            forall|k: int| 0 <= k < ls@.len() ==> #[trigger] ls@[k]@ == lines(text@)[k],
            i <= ls@.len(),
            sorted_strict(seqs_of(acc@)),
            seqs_of(acc@).to_set() == uid_emails_upto(text@, i as int),
        decreases ls@.len() - i,
    {
        let ghost before = seqs_of(acc@).to_set();
        match uid_email_of(ls[i].as_slice()) {
            Some(e) => {
                let ghost ev = e@;
                insert_sorted(&mut acc, e);
                assert(seqs_of(acc@).to_set() =~= uid_emails_upto(text@, i + 1)) by {
                    assert(uid_email(lines(text@)[i as int]) == Some(ev));
                    assert forall|x: Seq<char>| uid_emails_upto(text@, i + 1).contains(x)
                        <==> before.insert(ev).contains(x) by {
                        if uid_emails_upto(text@, i + 1).contains(x) {
                            let k = choose|k: int| 0 <= k < i + 1 && k < lines(text@).len()
                                && uid_email(#[trigger] lines(text@)[k]) == Some(x);
                            if k < i {
                                assert(uid_emails_upto(text@, i as int).contains(x));
                            }
                        }
                        if before.contains(x) {
                            let k = choose|k: int| 0 <= k < i && k < lines(text@).len()
                                && uid_email(#[trigger] lines(text@)[k]) == Some(x);
                            assert(uid_emails_upto(text@, i + 1).contains(x));
                        }
                    }
                }
            },
            None => {
                assert(seqs_of(acc@).to_set() =~= uid_emails_upto(text@, i + 1)) by {
                    assert(uid_email(lines(text@)[i as int]).is_none());
                    assert forall|x: Seq<char>| uid_emails_upto(text@, i + 1).contains(x)
                        <==> before.contains(x) by {
                        if uid_emails_upto(text@, i + 1).contains(x) {
                            let k = choose|k: int| 0 <= k < i + 1 && k < lines(text@).len()
                                && uid_email(#[trigger] lines(text@)[k]) == Some(x);
                            assert(k != i);
                        }
                        if before.contains(x) {
                            let k = choose|k: int| 0 <= k < i && k < lines(text@).len()
                                && uid_email(#[trigger] lines(text@)[k]) == Some(x);
                            assert(uid_emails_upto(text@, i + 1).contains(x));
                        }
                    }
                }
            },
        }
        i += 1;
    }
    let mut out: Vec<String> = Vec::new();
    let mut j: usize = 0;
    while j < acc.len()
        invariant
            j <= acc@.len(),
            views_of(out@) == seqs_of(acc@).take(j as int),
        decreases acc@.len() - j,
    {
        let s = string_of(acc[j].as_slice());
        let ghost before = views_of(out@);
        out.push(s);
        assert(views_of(out@) =~= before.push(acc@[j as int]@));
        assert(seqs_of(acc@).take(j + 1) =~= seqs_of(acc@).take(j as int).push(acc@[j as int]@));
        j += 1;
    }
    assert(seqs_of(acc@).take(acc@.len() as int) == seqs_of(acc@));
    out
}

/// Reads the result of looking up a secret key: whether `gpg` could run,
/// whether it reported a secret key (a `sec:` record), and the e-mails on
/// the key's user IDs.
pub fn secret_key_emails(output: GpgOutput) -> (r: KeyLookup)
    ensures
        match output {
            GpgOutput::Unavailable => !r.found && r.emails@.len() == 0 && r.gpg_missing,
            GpgOutput::Failed => !r.found && r.emails@.len() == 0 && !r.gpg_missing,
            GpgOutput::Listing(text) => {
                &&& r.found == has_secret_key(text@)
                &&& sorted_strict(views_of(r.emails@))
                &&& views_of(r.emails@).to_set() == uid_emails(text@)
                &&& !r.gpg_missing
            },
        },
{
    match output {
        GpgOutput::Unavailable => KeyLookup { found: false, emails: Vec::new(), gpg_missing: true },
        GpgOutput::Failed => KeyLookup { found: false, emails: Vec::new(), gpg_missing: false },
        GpgOutput::Listing(text) => {
            let emails = parse_uid_emails(text.as_str());
            let chars = chars_of(text.as_str());
            let ls = lines_of(chars.as_slice());
            let sec = chars_of("sec:");
            proof { reveal_strlit("sec:"); }
            let mut found = false;
            let mut i: usize = 0;
            while i < ls.len()
                invariant
                    ls@.len() == lines(text@).len(),
                    forall|k: int| 0 <= k < ls@.len() ==> #[trigger] ls@[k]@ == lines(text@)[k],
                    sec@ == "sec:"@,
                    i <= ls@.len(),
                    found == exists|k: int| 0 <= k < i && starts_with(#[trigger] lines(text@)[k], "sec:"@),
                decreases ls@.len() - i,
            {
                if has_prefix(ls[i].as_slice(), sec.as_slice()) {
                    found = true;
                }
                i += 1;
            }
            KeyLookup { found, emails, gpg_missing: false }
        },
    }
}

} // verus!
