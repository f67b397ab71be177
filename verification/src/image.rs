//! Machine images: where they are cached and when they are fetched.
use crate::outside;
use crate::outside::Failure;
use crate::paths;
use crate::text;
use vstd::prelude::*;
use vstd::string::*;

verus! {

/// A file to fetch once and keep, with its checksum; the checksum `skip`
/// fits any file.
#[derive(Debug, Clone)]
pub struct ImageSpec {
    pub url: String,
    pub sha256: String,
    pub filename: String,
    /// Seconds that a download may take.
    pub max_time_secs: u64,
}

/// `sum` is the output of `sha256sum` for a file with the checksum
/// `expected`: its first word, in capitals or not.
pub open spec fn sum_fits(sum: Seq<char>, expected: Seq<char>) -> bool {
    let w = text::words(sum);
    let actual = if w.len() == 0 {
        Seq::<char>::empty()
    } else {
        w[0]
    };
    expected == "skip"@ || text::small_all(actual) == text::small_all(expected)
}

/// Whether the output of `sha256sum` shows the expected checksum.
pub fn verify_sha256(sum: &str, expected: &str) -> (r: bool)
    ensures
        r == sum_fits(sum@, expected@),
{
    if text::same(expected, "skip") {
        return true;
    }
    let words = text::split_words(sum);
    if words.len() == 0 {
        proof {
            reveal_strlit("");
            assert(""@ =~= Seq::empty());
            assert(text::words(sum@).len() == 0);
        }
        text::same_but_case("", expected)
    } else {
        assert(text::texts(words@)[0] == words@[0]@);
        text::same_but_case(words[0].as_str(), expected)
    }
}

impl ImageSpec {
    /// Seconds that a first download may take.
    pub const DEFAULT_MAX_TIME_SECS: u64 = 600;

    /// Where the file is kept.
    pub fn cached_path(&self, cache_dir: &str) -> (p: String)
        ensures
            p@ == paths::join(cache_dir@, self.filename@),
    {
        paths::joined(cache_dir, self.filename.as_str())
    }

    /// Whether the file is there and whole: it exists, and its checksum, where
    /// one is asked for, could be taken and fits.
    pub fn is_cached(&self, exists: bool, sum: Option<&str>) -> (r: bool)
        ensures
            r == (exists && (self.sha256@ == "skip"@ || (sum matches Some(s) && sum_fits(
                s@,
                self.sha256@,
            )))),
    {
        if !exists {
            return false;
        }
        if text::same(self.sha256.as_str(), "skip") {
            return true;
        }
        match sum {
            Some(s) => verify_sha256(s, self.sha256.as_str()),
            None => false,
        }
    }

    /// How to fetch the file.
    pub fn fetch_plan(&self, cache_dir: &str) -> (p: FetchPlan)
        ensures
            p.dest@ == paths::join(cache_dir@, self.filename@),
            p.partial@ == paths::join(cache_dir@, self.filename@ + ".part"@),
            text::texts(p.args@) == seq![
                "-fSL"@,
                "--retry"@,
                "3"@,
                "--max-time"@,
                text::dec(self.max_time_secs as nat),
                "-C"@,
                "-"@,
                "-o"@,
                p.partial@,
                self.url@,
            ],
    {
        let mut name = self.filename.clone();
        name.append(".part");
        let partial = paths::joined(cache_dir, name.as_str());
        let mut args: Vec<String> = Vec::new();
        args.push("-fSL".to_owned());
        args.push("--retry".to_owned());
        args.push("3".to_owned());
        args.push("--max-time".to_owned());
        args.push(text::decimal(self.max_time_secs));
        args.push("-C".to_owned());
        args.push("-".to_owned());
        args.push("-o".to_owned());
        args.push(partial.clone());
        args.push(self.url.clone());
        let p = FetchPlan { dest: self.cached_path(cache_dir), partial, args };
        assert(text::texts(p.args@) =~= seq![
            "-fSL"@,
            "--retry"@,
            "3"@,
            "--max-time"@,
            text::dec(self.max_time_secs as nat),
            "-C"@,
            "-"@,
            "-o"@,
            p.partial@,
            self.url@,
        ]);
        p
    }

    /// What becomes of a download that ended, with or without success: its
    /// error output is the reason why not.
    pub fn after_download(&self, success: bool, stderr: &[u8]) -> (r: Result<(), Failure>)
        ensures
            match r {
                Ok(_) => success,
                Err(f) => !success && f@ == "download "@ + self.url@ + " failed: "@ + text::trim(
                    outside::utf8_lossy(stderr@),
                    text::blank(),
                ),
            },
    {
        if success {
            return Ok(());
        }
        let mut message = "download ".to_owned();
        message.append(self.url.as_str());
        message.append(" failed: ");
        message.append(text::trimmed(outside::lossy_text(stderr).as_str()).as_str());
        Err(Failure { message })
    }

    /// What becomes of a file whose `sha256sum` is `sum`: it is kept under its
    /// name, or removed with an error.
    pub fn after_checksum(&self, sum: &str) -> (r: Result<(), Failure>)
        ensures
            match r {
                Ok(_) => sum_fits(sum@, self.sha256@),
                Err(f) => !sum_fits(sum@, self.sha256@) && f@ == "checksum mismatch for "@
                    + self.filename@,
            },
    {
        if verify_sha256(sum, self.sha256.as_str()) {
            Ok(())
        } else {
            Err(Failure::because_of("checksum mismatch for ", self.filename.as_str()))
        }
    }
}

/// How to fetch a file: to `partial` first, with these arguments of `curl`,
/// then under its name.
#[derive(Debug, Clone, PartialEq, Eq)]
pub struct FetchPlan {
    pub dest: String,
    pub partial: String,
    pub args: Vec<String>,
}

/// The cache below a home directory; `/tmp` stands in for one that is not
/// known.
pub open spec fn cache_below(home: Option<Seq<char>>) -> Seq<char> {
    let h = match home {
        Some(h) => h,
        None => "/tmp"@,
    };
    paths::join(
        paths::join(paths::join(paths::join(h, ".local"@), "share"@), "ade"@),
        "vm"@,
    )
}

/// The cache below a home directory.
pub fn default_cache_dir(home: Option<&str>) -> (d: String)
    ensures
        d@ == cache_below(
            match home {
                Some(h) => Some(h@),
                None => None,
            },
        ),
{
    let h = match home {
        Some(h) => h,
        None => "/tmp",
    };
    let local = paths::joined(h, ".local");
    let share = paths::joined(local.as_str(), "share");
    let ade = paths::joined(share.as_str(), "ade");
    paths::joined(ade.as_str(), "vm")
}

/// A download is accepted where the first word of its sum is the one expected,
/// whatever the case of its letters, or where none is to be checked.
pub proof fn sums_are_compared_by_letters(sum: Seq<char>, expected: Seq<char>)
    ensures
        sum_fits(sum, "skip"@),
        expected != "skip"@ && text::words(sum).len() > 0 ==> (sum_fits(sum, expected) <==> {
            &&& text::words(sum)[0].len() == expected.len()
            &&& forall|i: int|
                0 <= i < expected.len() ==> text::small(#[trigger] expected[i]) == text::small(
                    text::words(sum)[0][i],
                )
        }),
        expected != "skip"@ && expected.len() > 0 && text::words(sum).len() == 0 ==> !sum_fits(
            sum,
            expected,
        ),
{
    if text::words(sum).len() > 0 {
        let w = text::words(sum)[0];
        let a = text::small_all(w);
        let b = text::small_all(expected);
        if w.len() == expected.len() && forall|i: int|
            0 <= i < expected.len() ==> text::small(#[trigger] expected[i]) == text::small(w[i]) {
            assert(a =~= b);
        }
        if a == b {
            assert(a.len() == b.len());
            assert forall|i: int| 0 <= i < expected.len() implies text::small(
                #[trigger] expected[i],
            ) == text::small(w[i]) by {
                assert(a[i] == b[i]);
            }
        }
    } else {
        assert(text::small_all(Seq::<char>::empty()).len() == 0);
        assert(text::small_all(expected).len() == expected.len());
    }
}

/// What is downloaded is kept below the home directory, and below a common one
/// where there is none.
pub proof fn downloads_are_kept_below_home(home: Seq<char>)
    requires
        home.len() > 0,
        home.last() != '/',
    ensures
        cache_below(Some(home)) == home + "/.local/share/ade/vm"@,
        cache_below(None) == "/tmp/.local/share/ade/vm"@,
{
    reveal_strlit("/.local/share/ade/vm");
    reveal_strlit("/tmp/.local/share/ade/vm");
    reveal_strlit("/tmp");
    reveal_strlit(".local");
    reveal_strlit("share");
    reveal_strlit("ade");
    reveal_strlit("vm");
    assert(cache_below(Some(home)) =~= home + "/.local/share/ade/vm"@);
    assert(cache_below(None) =~= "/tmp/.local/share/ade/vm"@);
}

} // verus!
