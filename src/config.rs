//! What a run is asked to do, as read from the command line.
use vstd::prelude::*;

verus! {

broadcast use vstd::string::group_string_axioms;

/// The character sequences of a list of strings.
pub open spec fn strings_view(v: Seq<String>) -> Seq<Seq<char>> {
    v.map_values(|s: String| s@)
}

/// What a run is asked to do.
pub struct Config {
    /// Options handed to curl as they are, in the order given.
    pub curl_options: Vec<String>,
    /// The URLs to fetch, spaces already encoded.
    pub urls: Vec<String>,
    /// The shared output path, when one was given: the last one wins.
    pub output_path: Option<String>,
    /// Whether default file names are percent-decoded.
    pub decode_filename: bool,
    /// Whether the command is only printed.
    pub dry_run: bool,
}

/// The mathematical content of a [`Config`].
pub struct ConfigView {
    pub curl_options: Seq<Seq<char>>,
    pub urls: Seq<Seq<char>>,
    pub output_path: Option<Seq<char>>,
    pub decode_filename: bool,
    pub dry_run: bool,
}

impl View for Config {
    type V = ConfigView;

    open spec fn view(&self) -> ConfigView {
        ConfigView {
            curl_options: strings_view(self.curl_options@),
            urls: strings_view(self.urls@),
            output_path: match self.output_path {
                Some(p) => Some(p@),
                None => None,
            },
            decode_filename: self.decode_filename,
            dry_run: self.dry_run,
        }
    }
}

/// The configuration before any argument is read.
pub open spec fn initial_config() -> ConfigView {
    ConfigView {
        curl_options: Seq::empty(),
        urls: Seq::empty(),
        output_path: None,
        decode_filename: true,
        dry_run: false,
    }
}

impl Config {
    /// No options, no URLs, file names decoded, a real run.
    pub fn new() -> (r: Config)
        ensures
            r@ == initial_config(),
    {
        let r = Config {
            curl_options: Vec::new(),
            urls: Vec::new(),
            output_path: None,
            decode_filename: true,
            dry_run: false,
        };
        assert(r@.curl_options == Seq::<Seq<char>>::empty());
        assert(r@.urls == Seq::<Seq<char>>::empty());
        r
    }
}

} // verus!
