//! Parsed templates and the substitution engine.

use vstd::prelude::*;

use crate::args::Args;
use crate::error::Error;
use crate::opts::Opts;
use crate::opts::validate_spec;
use crate::replace::replace_all;
use crate::replace::replace_all_exec;
use crate::scan::opt_int;
use crate::scan::scan_from;
use crate::scan::scan_keys_spec;
use crate::state::State;
use crate::state::lemma_remove_key_absent;
use crate::state::remove_key;

verus! {

/// The marker text of a key: `${`, the key, `}`.
pub open spec fn marker(k: Seq<char>) -> Seq<char> {
    seq!['$', '{'] + k + seq!['}']
}

/// The mathematical value of a parsed template: its text, its unresolved keys
/// in left-to-right order, and the policy it was parsed under.
pub struct TemplateModel {
    pub data: Seq<char>,
    pub keys: Seq<Seq<char>>,
    pub opts: Opts,
}

/// What parsing decides: scan the text, then validate the keys against the
/// policy; on success the template holds the original text, the scanned keys
/// and the policy.
pub open spec fn parse_spec(s: Seq<char>, opts: Opts) -> Result<TemplateModel, Error> {
    match scan_keys_spec(s) {
        Err(e) => Err(e),
        Ok(keys) => match validate_spec(opts, keys) {
            Err(e) => Err(e),
            Ok(_) => Ok(TemplateModel { data: s, keys: keys, opts: opts }),
        },
    }
}

/// The substitution loop over the argument pairs, in order.  A pair whose key
/// is present resolves every repetition of that key and replaces every
/// occurrence of its marker text; a pair whose key is absent is skipped when
/// `optional` is set and fails the application otherwise.
pub open spec fn apply_rec(
    data: Seq<char>,
    keys: Seq<Seq<char>>,
    optional: bool,
    pairs: Seq<(Seq<char>, Seq<char>)>,
) -> Result<Seq<char>, Error>
    decreases pairs.len(),
{
    if pairs.len() == 0 {
        Ok(data)
    } else {
        let k = pairs[0].0;
        let v = pairs[0].1;
        if keys.contains(k) {
            apply_rec(replace_all(data, marker(k), v), remove_key(keys, k), optional, pairs.drop_first())
        } else if optional {
            apply_rec(data, keys, optional, pairs.drop_first())
        } else {
            Err(Error::OptionalKeys)
        }
    }
}

/// What applying decides: a template without keys is an identity transform
/// whatever the arguments hold; otherwise the pairs are substituted in order.
pub open spec fn apply_spec(t: TemplateModel, pairs: Seq<(Seq<char>, Seq<char>)>) -> Result<
    Seq<char>,
    Error,
> {
    if t.keys.len() == 0 {
        Ok(t.data)
    } else {
        apply_rec(t.data, t.keys, t.opts.optional, pairs)
    }
}

/// A parsed template: the original text, the unresolved keys and the policy.
///
/// A template is consumed by [`Template::apply`]; clone it first to reuse it.
#[derive(Debug)]
pub struct Template {
    data: String,
    state: State,
    opts: Opts,
}

impl View for Template {
    type V = TemplateModel;

    closed spec fn view(&self) -> TemplateModel {
        TemplateModel { data: self.data@, keys: self.state@, opts: self.opts }
    }
}

/// Build the marker text `${key}` of a key.
fn marker_exec(k: &str) -> (r: String)
    ensures
        r@ == marker(k@),
{
    let mut out = String::new();
    out.append("${");
    out.append(k);
    out.append("}");
    proof {
        reveal_strlit("${");
        reveal_strlit("}");
        assert(out@ =~= marker(k@));
    }
    out
}

impl Template {
    /// Find all the keys in the input text, in left-to-right order.
    ///
    /// Exposed standalone for pre-parse inspection.  Fails on a nested marker
    /// and on mismatched braces.
    pub fn find_keys(input: &str) -> (r: Result<Vec<String>, Error>)
        ensures
            ({
                let m = scan_keys_spec(input@);
                match r {
                    Ok(keys) => m matches Ok(sk) && keys.deep_view() == sk,
                    Err(e) => m matches Err(e2) && e == e2,
                }
            }),
    {
        let n = input.unicode_len();
        let mut keys: Vec<String> = Vec::new();
        let mut open: Option<usize> = None;
        let mut closed: usize = 0;
        let mut i: usize = 0;
        proof {
            assert(keys.deep_view() =~= Seq::<Seq<char>>::empty());
        }
        while i < n
            invariant
                i <= n,
                n == input@.len(),
                match open {
                    Some(h) => h + 2 <= i && 3 * closed + 2 <= i,
                    None => 3 * closed <= i,
                },
                scan_from(input@, i as int, opt_int(open), closed as int, keys.deep_view())
                    == scan_keys_spec(input@),
            decreases n - i,
        {
            let c = input.get_char(i);
            if c == '$' && i + 1 < n && input.get_char(i + 1) == '{' {
                if open.is_some() {
                    return Err(Error::NestedTemplate { pos: i });
                }
                open = Some(i);
                i += 2;
            } else if c == '{' {
                if open.is_some() {
                    return Err(Error::NestedTemplate { pos: i });
                }
                i += 1;
            } else if c == '}' {
                match open {
                    Some(h) => {
                        let ghost kd = keys.deep_view();
                        let key = input.substring_char(h + 2, i).to_owned();
                        keys.push(key);
                        proof {
                            assert(kd.len() == keys@.len() - 1);
                            assert(keys.deep_view() =~= kd.push(
                                input@.subrange(h + 2, i as int),
                            ));
                        }
                        open = None;
                        closed += 1;
                        i += 1;
                    },
                    None => {
                        i += 1;
                    },
                }
            } else {
                i += 1;
            }
        }
        match open {
            Some(_) => Err(Error::MismatchedBraces { open: closed + 1, close: closed }),
            None => Ok(keys),
        }
    }

    /// Parse a template: scan the text for `${key}` markers and validate the
    /// keys against the policy.
    pub fn parse(input: &str, opts: Opts) -> (r: Result<Self, Error>)
        ensures
            ({
                let m = parse_spec(input@, opts);
                match r {
                    Ok(t) => m matches Ok(tm) && t@ == tm,
                    Err(e) => m matches Err(e2) && e == e2,
                }
            }),
    {
        let keys = match Self::find_keys(input) {
            Ok(keys) => keys,
            Err(e) => {
                return Err(e);
            },
        };
        let state = State::new(keys);
        match opts.validate(&state) {
            Ok(_) => Ok(Template { data: input.to_owned(), state, opts }),
            Err(e) => Err(e),
        }
    }

    /// Whether this template was accepted as an identity transform: the policy
    /// allows empty templates.
    pub fn is_empty(&self) -> (r: bool)
        ensures
            r == self@.opts.empty,
    {
        self.opts.empty
    }

    /// Apply the arguments to the template, consuming it.
    ///
    /// A template key that no argument names is left as literal `${key}` text;
    /// an argument that no template key matches fails the application unless
    /// the policy marks arguments optional.  On failure nothing of the partial
    /// substitution is returned.
    #[verifier::loop_isolation(false)]
    pub fn apply(self, args: &Args) -> (r: Result<String, Error>)
        ensures
            ({
                let m = apply_spec(self@, args@);
                match r {
                    Ok(s) => m matches Ok(t) && s@ == t,
                    Err(e) => m matches Err(e2) && e == e2,
                }
            }),
    {
        let ghost model = self@;
        let Template { data, state, opts } = self;
        let mut data = data;
        let mut state = state;
        if !state.has_keys() {
            return Ok(data);
        }
        let pairs = args.iter();
        let n = pairs.len();
        let mut j: usize = 0;
        proof {
            assert(args@.skip(0) =~= args@);
        }
        while j < n
            invariant
                j <= n,
                n == args@.len(),
                pairs.deep_view() == args@,
                n == pairs.len(),
                opts == model.opts,
                model.keys.len() != 0,
                apply_rec(data@, state@, opts.optional, args@.skip(j as int)) == apply_rec(
                    model.data,
                    model.keys,
                    model.opts.optional,
                    args@,
                ),
            decreases n - j,
        {
            let ghost rest = args@.skip(j as int);
            proof {
                assert(rest[0] == args@[j as int]);
                assert(rest.drop_first() =~= args@.skip(j + 1));
            }
            let key: &String = &pairs[j].0;
            let val: &String = &pairs[j].1;
            proof {
                assert(key@ == args@[j as int].0);
                assert(val@ == args@[j as int].1);
            }
            let ghost keys_before = state@;
            let ghost data_before = data@;
            let removed = state.remove(key.as_str());
            match removed {
                Some(_) => {
                    let pat = marker_exec(key.as_str());
                    proof {
                        assert(pat@.len() == key@.len() + 3);
                    }
                    let replaced = replace_all_exec(data.as_str(), pat.as_str(), val.as_str());
                    data = replaced;
                    proof {
                        assert(keys_before.contains(key@));
                        assert(state@ == remove_key(keys_before, key@));
                        assert(data@ == replace_all(data_before, marker(key@), val@));
                        assert(apply_rec(data_before, keys_before, opts.optional, rest)
                            == apply_rec(data@, state@, opts.optional, args@.skip(j + 1)));
                    }
                },
                None => {
                    proof {
                        lemma_remove_key_absent(keys_before, key@);
                        assert(state@ == keys_before);
                        assert(!keys_before.contains(key@));
                    }
                    if !opts.optional {
                        proof {
                            assert(apply_rec(data_before, keys_before, opts.optional, rest)
                                == Err::<Seq<char>, Error>(Error::OptionalKeys));
                            assert(apply_rec(
                                model.data,
                                model.keys,
                                model.opts.optional,
                                args@,
                            ) == Err::<Seq<char>, Error>(Error::OptionalKeys));
                            assert(apply_spec(model, args@) == Err::<Seq<char>, Error>(
                                Error::OptionalKeys,
                            ));
                        }
                        return Err(Error::OptionalKeys);
                    }
                    proof {
                        assert(apply_rec(data_before, keys_before, opts.optional, rest)
                            == apply_rec(data@, state@, opts.optional, args@.skip(j + 1)));
                    }
                },
            }
            j += 1;
        }
        proof {
            assert(args@.skip(n as int) =~= Seq::<(Seq<char>, Seq<char>)>::empty());
        }
        Ok(data)
    }
}

impl Clone for Template {
    /// An independent copy: applying the copy gives the same result the
    /// original would have given.
    fn clone(&self) -> (r: Self)
        ensures
            r@ == self@,
    {
        Template { data: self.data.clone(), state: self.state.clone(), opts: self.opts }
    }
}

} // verus!
