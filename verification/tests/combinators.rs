use nom::{
    bytes::complete::{tag, take_until, take_while},
    character::{complete::char, is_alphanumeric},
    multi::{many0, separated_list0},
    sequence::{delimited, preceded, terminated, tuple},
    IResult,
};
use sonde::ast::{Probe, Provider, Script};
use sonde::parser::parse;

fn blanks(input: &str) -> IResult<&str, &str> {
    take_while(|c| "\t\r\n ".contains(c))(input)
}

fn word(input: &str) -> IResult<&str, &str> {
    take_while(|c: char| is_alphanumeric(c as u8) || c == '-' || c == '_')(input)
}

fn spelling(input: &str) -> IResult<&str, &str> {
    take_while(|c| !",)".contains(c))(input)
}

fn one_probe(input: &str) -> IResult<&str, Probe> {
    let (rest, (name, arguments)) = tuple((
        preceded(tag("probe"), preceded(blanks, word)),
        delimited(
            preceded(blanks, char('(')),
            separated_list0(char(','), preceded(blanks, spelling)),
            preceded(blanks, terminated(char(')'), preceded(blanks, char(';')))),
        ),
    ))(input)?;
    let probe = Probe {
        name: name.to_string(),
        arguments: arguments
            .iter()
            .map(|argument| argument.trim())
            .filter(|argument| !argument.is_empty())
            .map(|argument| argument.to_string())
            .collect(),
    };
    Ok((rest, probe))
}

fn one_provider(input: &str) -> IResult<&str, Provider> {
    let (rest, (name, probes)) = tuple((
        preceded(tag("provider"), preceded(blanks, word)),
        delimited(
            preceded(blanks, char('{')),
            many0(preceded(blanks, one_probe)),
            preceded(blanks, terminated(char('}'), preceded(blanks, char(';')))),
        ),
    ))(input)?;
    let provider = Provider {
        name: name.to_string(),
        probes,
    };
    Ok((rest, provider))
}

fn whole_script(mut input: &str) -> Option<Script> {
    let mut script = Script { providers: vec![] };
    loop {
        let found: IResult<&str, &str> = take_until("provider")(input);
        match found {
            Ok((next, _)) => match one_provider(next) {
                Ok((next, provider)) => {
                    script.providers.push(provider);
                    input = next;
                }
                Err(_) => return None,
            },
            Err(_) => return Some(script),
        }
    }
}

fn has_empty_name(script: &Script) -> bool {
    script
        .providers
        .iter()
        .any(|provider| provider.name.is_empty() || provider.probes.iter().any(|probe| probe.name.is_empty()))
}

fn compare(input: &str) {
    match whole_script(input) {
        None => assert!(parse(input).is_err(), "{:?}", input),
        Some(script) => {
            if has_empty_name(&script) {
                assert!(parse(input).is_err(), "{:?}", input);
            } else {
                assert_eq!(parse(input), Ok(script), "{:?}", input);
            }
        }
    }
}

#[test]
fn agrees_with_combinators_on_chosen_texts() {
    for input in [
        "",
        "provider foobar { probe abc(); };",
        "provider foobar { probe abc(char*, int); probe def(string); };",
        "provider foobar {...}; provider hopla { probe xyz(); };",
        "provider a{probe b(int,);};provider c{};",
        "provider a { probe b ( long long , char ** ) ; } ;",
        "x provider a { probe b(\u{b}int\u{a0}); };",
        "provider a { probe b(int; };",
        "provider a { probe b(int) };",
        "provider a { probe (int); };",
        "provider { };",
        "provider a { } ; provider",
        "providerprovider a { };",
        "provider a { probe b(,,); probe c( , x , ); };",
        "provider a { probe b(x(y), z); };",
        "provider a { probe b(x y\tz); }\n;",
    ] {
        compare(input);
    }
}

#[test]
fn agrees_with_combinators_on_generated_texts() {
    let fragments = [
        "provider", "provider ", "probe", "probe ", " ", "\n", "\t", "a", "b_-9", "Z", "{", "}",
        ";", "(", ")", ",", "int", "char *", "*", "};", "();", "{ }", "x y",
    ];
    let mut state: u64 = 0x2545_f491_4f6c_dd1d;
    let mut step = || {
        state ^= state << 13;
        state ^= state >> 7;
        state ^= state << 17;
        state
    };
    let mut well_formed = 0;
    for round in 0..6000 {
        let mut input = String::new();
        if round % 2 == 0 {
            input.push_str("provider p { ");
        }
        let count = step() % 10;
        for _ in 0..count {
            let pick = (step() % fragments.len() as u64) as usize;
            input.push_str(fragments[pick]);
        }
        if round % 4 == 0 {
            input.push_str(" };");
        }
        if parse(&input).map(|script| !script.providers.is_empty()).unwrap_or(false) {
            well_formed += 1;
        }
        compare(&input);
    }
    assert!(well_formed > 50);
}
