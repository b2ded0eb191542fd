//! The command line: `<input> <output> [<effect> <params>...]`.
//!
//! The effects are `gain <factor>`, `echo <delay> <factor>` and
//! `lowpass <alpha>`; they are applied in the order in which they are written.
use vstd::prelude::*;

use crate::dsp::{Coefficient, Effect, EffectModel};
use crate::literal::{chars_of, is_float_literal, parse_usize, usize_literal};

verus! {

/// Why a command line was refused.
#[derive(Debug, PartialEq)]
pub enum ParseError {
    MissingInput,
    MissingOutput,
    UnknownEffect(String),
    MissingParam(String),
    InvalidNumber(String),
}

/// A refusal, with each text taken as its characters.
pub enum ParseFailure {
    MissingInput,
    MissingOutput,
    UnknownEffect(Seq<char>),
    MissingParam(Seq<char>),
    InvalidNumber(Seq<char>),
}

impl View for ParseError {
    type V = ParseFailure;

    open spec fn view(&self) -> ParseFailure {
        match self {
            ParseError::MissingInput => ParseFailure::MissingInput,
            ParseError::MissingOutput => ParseFailure::MissingOutput,
            ParseError::UnknownEffect(e) => ParseFailure::UnknownEffect(e@),
            ParseError::MissingParam(p) => ParseFailure::MissingParam(p@),
            ParseError::InvalidNumber(n) => ParseFailure::InvalidNumber(n@),
        }
    }
}

/// The text shown to a user for a refusal.
pub open spec fn failure_message(f: ParseFailure) -> Seq<char> {
    match f {
        ParseFailure::MissingInput => "the input is missing"@,
        ParseFailure::MissingOutput => "the output is missing"@,
        ParseFailure::UnknownEffect(e) => "unknown effect: '"@ + e + "'"@,
        ParseFailure::MissingParam(p) => "missing param for '"@ + p + "'"@,
        ParseFailure::InvalidNumber(n) => "invalid number: '"@ + n + "'"@,
    }
}

impl ParseError {
    /// The text shown to a user for this refusal.
    pub fn message(&self) -> (r: String)
        ensures
            r@ == failure_message(self@),
    {
        match self {
            ParseError::MissingInput => String::from_str("the input is missing"),
            ParseError::MissingOutput => String::from_str("the output is missing"),
            ParseError::UnknownEffect(e) => {
                let mut m = String::from_str("unknown effect: '");
                m.append(e.as_str());
                m.append("'");
                m
            },
            ParseError::MissingParam(p) => {
                let mut m = String::from_str("missing param for '");
                m.append(p.as_str());
                m.append("'");
                m
            },
            ParseError::InvalidNumber(n) => {
                let mut m = String::from_str("invalid number: '");
                m.append(n.as_str());
                m.append("'");
                m
            },
        }
    }
}

/// What to read, where to write, and the effects to apply in between.
#[derive(Debug, PartialEq)]
pub struct Config {
    pub input: String,
    pub output: String,
    pub effects: Vec<Effect>,
}

pub struct ConfigModel {
    pub input: Seq<char>,
    pub output: Seq<char>,
    pub effects: Seq<EffectModel>,
}

impl View for Config {
    type V = ConfigModel;

    open spec fn view(&self) -> ConfigModel {
        ConfigModel {
            input: self.input@,
            output: self.output@,
            effects: self.effects@.map_values(|e: Effect| e@),
        }
    }
}

pub open spec fn gain_word() -> Seq<char> {
    seq!['g', 'a', 'i', 'n']
}

pub open spec fn echo_word() -> Seq<char> {
    seq!['e', 'c', 'h', 'o']
}

pub open spec fn lowpass_word() -> Seq<char> {
    seq!['l', 'o', 'w', 'p', 'a', 's', 's']
}

/// `prefix` put in front of the effects of `rest`, or the refusal of `rest`.
pub open spec fn after(
    prefix: Seq<EffectModel>,
    rest: Result<Seq<EffectModel>, ParseFailure>,
) -> Result<Seq<EffectModel>, ParseFailure> {
    match rest {
        Ok(es) => Ok(prefix + es),
        Err(f) => Err(f),
    }
}

/// The effects that the words after the two paths ask for, read left to
/// right, or the first refusal met on the way.
pub open spec fn parse_commands(cmds: Seq<Seq<char>>) -> Result<Seq<EffectModel>, ParseFailure>
    decreases cmds.len(),
{
    if cmds.len() == 0 {
        Ok(seq![])
    } else {
        let command = cmds[0];
        if command == gain_word() {
            if cmds.len() < 2 {
                Err(ParseFailure::MissingParam(command))
            } else if !is_float_literal(cmds[1]) {
                Err(ParseFailure::InvalidNumber(cmds[1]))
            } else {
                after(seq![EffectModel::Gain { factor: cmds[1] }], parse_commands(cmds.skip(2)))
            }
        } else if command == echo_word() {
            if cmds.len() < 2 {
                Err(ParseFailure::MissingParam(command))
            } else {
                match usize_literal(cmds[1]) {
                    None => Err(ParseFailure::InvalidNumber(cmds[1])),
                    Some(delay) => if cmds.len() < 3 {
                        Err(ParseFailure::MissingParam(command))
                    } else if !is_float_literal(cmds[2]) {
                        Err(ParseFailure::InvalidNumber(cmds[2]))
                    } else {
                        after(
                            seq![EffectModel::Echo { delay, factor: cmds[2] }],
                            parse_commands(cmds.skip(3)),
                        )
                    },
                }
            }
        } else if command == lowpass_word() {
            if cmds.len() < 2 {
                Err(ParseFailure::MissingParam(command))
            } else if !is_float_literal(cmds[1]) {
                Err(ParseFailure::InvalidNumber(cmds[1]))
            } else {
                after(seq![EffectModel::LowPass { alpha: cmds[1] }], parse_commands(cmds.skip(2)))
            }
        } else {
            Err(ParseFailure::UnknownEffect(command))
        }
    }
}

/// What a command line asks for, or why it is refused.
pub open spec fn parse_config(args: Seq<Seq<char>>) -> Result<ConfigModel, ParseFailure> {
    if args.len() == 0 {
        Err(ParseFailure::MissingInput)
    } else if args.len() == 1 {
        Err(ParseFailure::MissingOutput)
    } else {
        match parse_commands(args.skip(2)) {
            Ok(effects) => Ok(ConfigModel { input: args[0], output: args[1], effects }),
            Err(f) => Err(f),
        }
    }
}

/// The words of a command line, each taken as its characters.
pub open spec fn words(args: Seq<String>) -> Seq<Seq<char>> {
    args.map_values(|s: String| s@)
}

/// Parses an unsigned integer parameter.
pub fn parse_num(token: &str) -> (r: Result<usize, ParseError>)
    ensures
        match usize_literal(token@) {
            Some(v) => r == Ok::<usize, ParseError>(v),
            None => r matches Err(e) && e@ == ParseFailure::InvalidNumber(token@),
        },
{
    match parse_usize(token) {
        Some(v) => Ok(v),
        None => Err(ParseError::InvalidNumber(token.to_owned())),
    }
}

/// Parses a floating-point parameter.
pub fn parse_coefficient(token: &str) -> (r: Result<Coefficient, ParseError>)
    ensures
        is_float_literal(token@) ==> (r matches Ok(c) && c@ == token@),
        !is_float_literal(token@) ==> (r matches Err(e) && e@ == ParseFailure::InvalidNumber(
            token@,
        )),
{
    match Coefficient::from_literal(token) {
        Some(c) => Ok(c),
        None => Err(ParseError::InvalidNumber(token.to_owned())),
    }
}

fn same_chars(a: &Vec<char>, b: &Vec<char>) -> (r: bool)
    ensures
        r == (a@ == b@),
{
    if a.len() != b.len() {
        return false;
    }
    let mut i: usize = 0;
    while i < a.len()
        invariant
            a@.len() == b@.len(),
            i <= a@.len(),
            forall|j: int| 0 <= j < i ==> a@[j] == b@[j],
        decreases a.len() - i,
    {
        if a[i] != b[i] {
            return false;
        }
        i = i + 1;
    }
    assert(a@ =~= b@);
    true
}

/// Reads the command line: the input path, the output path, then effects
/// with their parameters.
pub fn parse_args(args: &[String]) -> (r: Result<Config, ParseError>)
    ensures
        match parse_config(words(args@)) {
            Ok(m) => r matches Ok(c) && c@ == m,
            Err(f) => r matches Err(e) && e@ == f,
        },
        r matches Ok(c) ==> writes_effects(words(args@).skip(2), c@.effects),
{
    let ghost w = words(args@);
    if args.len() == 0 {
        return Err(ParseError::MissingInput);
    }
    if args.len() == 1 {
        return Err(ParseError::MissingOutput);
    }
    let input = args[0].clone();
    let output = args[1].clone();
    let gain = vec!['g', 'a', 'i', 'n'];
    let echo = vec!['e', 'c', 'h', 'o'];
    let lowpass = vec!['l', 'o', 'w', 'p', 'a', 's', 's'];
    assert(gain@ =~= gain_word());
    assert(echo@ =~= echo_word());
    assert(lowpass@ =~= lowpass_word());
    let mut effects: Vec<Effect> = Vec::new();
    let n = args.len();
    let mut i: usize = 2;
    while i < n
        invariant
            n == args@.len(),
            w == words(args@),
            2 <= i <= n,
            gain@ == gain_word(),
            echo@ == echo_word(),
            lowpass@ == lowpass_word(),
            parse_commands(w.skip(2)) == after(
                effects@.map_values(|e: Effect| e@),
                parse_commands(w.skip(i as int)),
            ),
        decreases n - i,
    {
        let ghost rest = w.skip(i as int);
        let ghost before = effects@.map_values(|e: Effect| e@);
        let command = &args[i];
        assert(rest[0] == command@);
        let word = chars_of(command.as_str());
        if same_chars(&word, &gain) {
            if i + 1 >= n {
                return Err(ParseError::MissingParam(command.clone()));
            }
            assert(rest[1] == args@[i + 1]@);
            let factor = match parse_coefficient(args[i + 1].as_str()) {
                Ok(c) => c,
                Err(e) => {
                    return Err(e);
                },
            };
            let ghost m = EffectModel::Gain { factor: rest[1] };
            effects.push(Effect::Gain { factor });
            assert(rest.skip(2) =~= w.skip(i + 2));
            assert(effects@.map_values(|e: Effect| e@) =~= before + seq![m]);
            assert(before + seq![m] + parse_commands(rest.skip(2))->Ok_0 =~= before + (seq![m]
                + parse_commands(rest.skip(2))->Ok_0));
            i = i + 2;
        } else if same_chars(&word, &echo) {
            if i + 1 >= n {
                return Err(ParseError::MissingParam(command.clone()));
            }
            assert(rest[1] == args@[i + 1]@);
            let delay = match parse_num(args[i + 1].as_str()) {
                Ok(d) => d,
                Err(e) => {
                    return Err(e);
                },
            };
            if i + 2 >= n {
                return Err(ParseError::MissingParam(command.clone()));
            }
            assert(rest[2] == args@[i + 2]@);
            let factor = match parse_coefficient(args[i + 2].as_str()) {
                Ok(c) => c,
                Err(e) => {
                    return Err(e);
                },
            };
            let ghost m = EffectModel::Echo { delay, factor: rest[2] };
            effects.push(Effect::Echo { delay, factor });
            assert(rest.skip(3) =~= w.skip(i + 3));
            assert(effects@.map_values(|e: Effect| e@) =~= before + seq![m]);
            assert(before + seq![m] + parse_commands(rest.skip(3))->Ok_0 =~= before + (seq![m]
                + parse_commands(rest.skip(3))->Ok_0));
            i = i + 3;
        } else if same_chars(&word, &lowpass) {
            if i + 1 >= n {
                return Err(ParseError::MissingParam(command.clone()));
            }
            assert(rest[1] == args@[i + 1]@);
            let alpha = match parse_coefficient(args[i + 1].as_str()) {
                Ok(c) => c,
                Err(e) => {
                    return Err(e);
                },
            };
            let ghost m = EffectModel::LowPass { alpha: rest[1] };
            effects.push(Effect::LowPass { alpha });
            assert(rest.skip(2) =~= w.skip(i + 2));
            assert(effects@.map_values(|e: Effect| e@) =~= before + seq![m]);
            assert(before + seq![m] + parse_commands(rest.skip(2))->Ok_0 =~= before + (seq![m]
                + parse_commands(rest.skip(2))->Ok_0));
            i = i + 2;
        } else {
            return Err(ParseError::UnknownEffect(command.clone()));
        }
    }
    assert(w.skip(i as int) =~= Seq::<Seq<char>>::empty());
    assert(effects@.map_values(|e: Effect| e@) + Seq::<EffectModel>::empty() =~= effects@.map_values(
        |e: Effect| e@,
    ));
    let config = Config { input, output, effects };
    proof {
        lemma_config_follows_the_words(args@, config@);
    }
    Ok(config)
}

proof fn lemma_after_nothing(r: Result<Seq<EffectModel>, ParseFailure>)
    ensures
        after(seq![], r) == r,
{
    if let Ok(es) = r {
        assert(Seq::<EffectModel>::empty() + es =~= es);
    }
}

proof fn lemma_after_after(
    p: Seq<EffectModel>,
    q: Seq<EffectModel>,
    r: Result<Seq<EffectModel>, ParseFailure>,
)
    ensures
        after(p, after(q, r)) == after(p + q, r),
{
    if let Ok(es) = r {
        assert(p + (q + es) =~= p + q + es);
    }
}

/// Effects are read in the order in which they are written: when the words
/// `a` form complete effects, the words `a` followed by `b` ask for the
/// effects of `a` followed by those of `b`, or for the refusal of `b`.
pub proof fn lemma_commands_concatenate(a: Seq<Seq<char>>, b: Seq<Seq<char>>)
    requires
        parse_commands(a) is Ok,
    ensures
        parse_commands(a + b) == after(parse_commands(a)->Ok_0, parse_commands(b)),
    decreases a.len(),
{
    if a.len() == 0 {
        assert(a + b =~= b);
        lemma_after_nothing(parse_commands(b));
    } else {
        let c = a[0];
        assert((a + b)[0] == c);
        if c == gain_word() || c == lowpass_word() {
            assert((a + b)[1] == a[1]);
            assert((a + b).skip(2) =~= a.skip(2) + b);
            lemma_commands_concatenate(a.skip(2), b);
            let m = if c == gain_word() {
                EffectModel::Gain { factor: a[1] }
            } else {
                EffectModel::LowPass { alpha: a[1] }
            };
            lemma_after_after(seq![m], parse_commands(a.skip(2))->Ok_0, parse_commands(b));
        } else {
            assert((a + b)[1] == a[1]);
            assert((a + b)[2] == a[2]);
            assert((a + b).skip(3) =~= a.skip(3) + b);
            lemma_commands_concatenate(a.skip(3), b);
            let m = EffectModel::Echo { delay: usize_literal(a[1])->Some_0, factor: a[2] };
            lemma_after_after(seq![m], parse_commands(a.skip(3))->Ok_0, parse_commands(b));
        }
    }
}

proof fn lemma_quoted_text(p: Seq<char>, e1: Seq<char>, e2: Seq<char>, q: Seq<char>)
    requires
        p + e1 + q == p + e2 + q,
    ensures
        e1 == e2,
{
    assert((p + e1 + q).len() == (p + e2 + q).len());
    assert((p + e1 + q).len() == (p + e1).len() + q.len());
    assert((p + e2 + q).len() == (p + e2).len() + q.len());
    assert((p + e1).len() == p.len() + e1.len());
    assert((p + e2).len() == p.len() + e2.len());
    assert(e1.len() == e2.len());
    assert forall|i: int| 0 <= i < e1.len() implies e1[i] == e2[i] by {
        assert((p + e1 + q)[p.len() + i] == (p + e1)[p.len() + i]);
        assert((p + e2 + q)[p.len() + i] == (p + e2)[p.len() + i]);
        assert((p + e1)[p.len() + i] == e1[i]);
        assert((p + e2)[p.len() + i] == e2[i]);
    }
    assert(e1 =~= e2);
}

/// No two refusals are shown with the same text.
pub proof fn lemma_messages_tell_refusals_apart(f1: ParseFailure, f2: ParseFailure)
    ensures
        failure_message(f1) == failure_message(f2) ==> f1 == f2,
{
    reveal_strlit("the input is missing");
    reveal_strlit("the output is missing");
    reveal_strlit("unknown effect: '");
    reveal_strlit("missing param for '");
    reveal_strlit("invalid number: '");
    reveal_strlit("'");
    let m1 = failure_message(f1);
    let m2 = failure_message(f2);
    if m1 == m2 {
        assert(m1[0] == m2[0]);
        assert(m1[4] == m2[4]);
        match (f1, f2) {
            (ParseFailure::UnknownEffect(a), ParseFailure::UnknownEffect(b)) => {
                lemma_quoted_text("unknown effect: '"@, a, b, "'"@);
            },
            (ParseFailure::MissingParam(a), ParseFailure::MissingParam(b)) => {
                lemma_quoted_text("missing param for '"@, a, b, "'"@);
            },
            (ParseFailure::InvalidNumber(a), ParseFailure::InvalidNumber(b)) => {
                lemma_quoted_text("invalid number: '"@, a, b, "'"@);
            },
            _ => {},
        }
    }
}

/// `chunk` is how the effect `e` is written on a command line: the effect's
/// name, then its parameters as written: the factor or alpha literal itself,
/// and for an echo a literal whose value is the delay.
pub open spec fn writes_effect(chunk: Seq<Seq<char>>, e: EffectModel) -> bool {
    match e {
        EffectModel::Gain { factor } => chunk == seq![gain_word(), factor] && is_float_literal(
            factor,
        ),
        EffectModel::Echo { delay, factor } => {
            &&& chunk.len() == 3
            &&& chunk[0] == echo_word()
            &&& usize_literal(chunk[1]) == Some(delay)
            &&& chunk[2] == factor
            &&& is_float_literal(factor)
        },
        EffectModel::LowPass { alpha } => chunk == seq![lowpass_word(), alpha]
            && is_float_literal(alpha),
    }
}

/// The words `cmds` are the effects `es` written one after another: they cut
/// into as many pieces as there are effects, the `k`-th piece writing the
/// `k`-th effect.
pub open spec fn writes_effects(cmds: Seq<Seq<char>>, es: Seq<EffectModel>) -> bool {
    exists|chunks: Seq<Seq<Seq<char>>>|
        #![trigger chunks.flatten()]
        chunks.len() == es.len() && chunks.flatten() == cmds && forall|k: int|
            0 <= k < es.len() ==> writes_effect(#[trigger] chunks[k], es[k])
}

proof fn lemma_flatten_front(c: Seq<Seq<char>>, rest: Seq<Seq<Seq<char>>>)
    ensures
        (seq![c] + rest).flatten() == c + rest.flatten(),
{
    assert((seq![c] + rest).drop_first() =~= rest);
    assert((seq![c] + rest).first() == c);
}

proof fn lemma_parsed_effects_are_written(cmds: Seq<Seq<char>>)
    requires
        parse_commands(cmds) is Ok,
    ensures
        writes_effects(cmds, parse_commands(cmds)->Ok_0),
    decreases cmds.len(),
{
    let es = parse_commands(cmds)->Ok_0;
    if cmds.len() == 0 {
        let chunks = Seq::<Seq<Seq<char>>>::empty();
        assert(chunks.flatten() =~= cmds);
        assert(es =~= Seq::<EffectModel>::empty());
    } else {
        let c = cmds[0];
        let k: int = if c == echo_word() {
            3
        } else {
            2
        };
        let rest = cmds.skip(k);
        lemma_parsed_effects_are_written(rest);
        let res = parse_commands(rest)->Ok_0;
        let chunks0 = choose|chunks: Seq<Seq<Seq<char>>>|
            #![trigger chunks.flatten()]
            chunks.len() == res.len() && chunks.flatten() == rest && forall|j: int|
                0 <= j < res.len() ==> writes_effect(#[trigger] chunks[j], res[j]);
        let head = cmds.take(k);
        let chunks = seq![head] + chunks0;
        lemma_flatten_front(head, chunks0);
        assert(head + rest =~= cmds);
        assert(es =~= seq![es[0]] + res);
        assert(head =~= if k == 3 {
            seq![cmds[0], cmds[1], cmds[2]]
        } else {
            seq![cmds[0], cmds[1]]
        });
        assert forall|j: int| 0 <= j < es.len() implies writes_effect(#[trigger] chunks[j], es[j]) by {
            if j > 0 {
                assert(chunks[j] == chunks0[j - 1]);
                assert(es[j] == res[j - 1]);
            }
        }
    }
}

proof fn lemma_written_chunks_parse(chunks: Seq<Seq<Seq<char>>>, es: Seq<EffectModel>)
    requires
        chunks.len() == es.len(),
        forall|k: int| 0 <= k < es.len() ==> writes_effect(#[trigger] chunks[k], es[k]),
    ensures
        parse_commands(chunks.flatten()) == Ok::<Seq<EffectModel>, ParseFailure>(es),
    decreases chunks.len(),
{
    if chunks.len() == 0 {
        assert(es =~= Seq::<EffectModel>::empty());
    } else {
        let c = chunks[0];
        let rest = chunks.drop_first();
        assert forall|k: int| 0 <= k < es.drop_first().len() implies writes_effect(
            #[trigger] rest[k],
            es.drop_first()[k],
        ) by {
            assert(writes_effect(chunks[k + 1], es[k + 1]));
        }
        lemma_written_chunks_parse(rest, es.drop_first());
        let cmds = chunks.flatten();
        assert(cmds == c + rest.flatten());
        assert(writes_effect(chunks[0], es[0]));
        assert(cmds[0] == c[0]);
        assert(cmds[1] == c[1]);
        assert(cmds.skip(c.len() as int) =~= rest.flatten());
        if c.len() == 3 {
            assert(cmds[2] == c[2]);
        }
        assert(seq![es[0]] + es.drop_first() =~= es);
    }
}

/// The effects read from the words after the two paths are exactly the effects
/// those words write, in order: one effect for each effect word, with each
/// factor and alpha the literal written and each echo delay the value of the
/// literal written, whatever those values are.
pub proof fn lemma_effects_follow_the_words(cmds: Seq<Seq<char>>, es: Seq<EffectModel>)
    ensures
        parse_commands(cmds) == Ok::<Seq<EffectModel>, ParseFailure>(es) <==> writes_effects(
            cmds,
            es,
        ),
{
    if parse_commands(cmds) == Ok::<Seq<EffectModel>, ParseFailure>(es) {
        lemma_parsed_effects_are_written(cmds);
    }
    if writes_effects(cmds, es) {
        let chunks = choose|chunks: Seq<Seq<Seq<char>>>|
            #![trigger chunks.flatten()]
            chunks.len() == es.len() && chunks.flatten() == cmds && forall|k: int|
                0 <= k < es.len() ==> writes_effect(#[trigger] chunks[k], es[k]);
        lemma_written_chunks_parse(chunks, es);
    }
}

/// A command line that is read gives its first word as the input, its second
/// as the output, and as effects exactly those that the remaining words write.
pub proof fn lemma_config_follows_the_words(args: Seq<String>, c: ConfigModel)
    requires
        parse_config(words(args)) == Ok::<ConfigModel, ParseFailure>(c),
    ensures
        args.len() >= 2,
        c.input == args[0]@,
        c.output == args[1]@,
        writes_effects(words(args).skip(2), c.effects),
{
    lemma_effects_follow_the_words(words(args).skip(2), c.effects);
}

} // verus!
