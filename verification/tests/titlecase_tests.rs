use titlecase::titlecase;
use titlecase::Titlecase;

fn check(input: &str, expected: &str) {
    assert_eq!(titlecase(input), expected);
    assert_eq!(input.titlecase(), expected);
    assert_eq!(String::from(input).titlecase(), expected);
}

#[test]
fn email() {
    check(
        "For step-by-step directions email someone@gmail.com",
        "For Step-by-Step Directions Email someone@gmail.com",
    );
}

#[test]
fn subphrase_in_single_quotes() {
    check(
        "2lmc Spool: 'Gruber on OmniFocus and Vapo(u)rware'",
        "2lmc Spool: 'Gruber on OmniFocus and Vapo(u)rware'",
    );
}

#[test]
fn subphrase_in_double_quotes() {
    check(
        r#"2lmc Spool: "Gruber on OmniFocus and Vapo(u)rware""#,
        r#"2lmc Spool: "Gruber on OmniFocus and Vapo(u)rware""#,
    );
}

#[test]
fn curly_double_quotes() {
    check(
        "Have you read “the lottery”?",
        "Have You Read “The Lottery”?",
    );
}

#[test]
fn brackets() {
    check(
        "your hair[cut] looks (nice)",
        "Your Hair[cut] Looks (Nice)",
    );
}

#[test]
fn multiple_brackets() {
    check(
        "your hair[cut] looks ((Very Nice))",
        "Your Hair[cut] Looks ((Very Nice))",
    );
}

#[test]
fn url() {
    check(
        "People probably won't put http://foo.com/bar/ in titles",
        "People Probably Won't Put http://foo.com/bar/ in Titles",
    );
}

#[test]
fn name_url() {
    check(
        "Scott Moritz and TheStreet.com’s million iPhone la‑la land",
        "Scott Moritz and TheStreet.com’s Million iPhone La‑La Land",
    );
}

#[test]
fn acronym() {
    check(
        "(ABC) ((ABC)) (ABC ABC) ((ABC) (ABC)) (Abc) (abc) (aBC) (aBc) (ABC)/(ABC) (ABC)/abc ABC",
        "(ABC) ((ABC)) (Abc ABC) ((Abc) (Abc)) (Abc) (Abc) (aBC) (aBc) (ABC)/(ABC) (ABC)/Abc ABC",
    );
}

#[test]
fn iphone() {
    check("BlackBerry vs. iPhone", "BlackBerry vs. iPhone");
}

#[test]
fn curly_single_quotes() {
    check(
        "Notes and observations regarding Apple’s announcements from ‘The Beat Goes On’ special event",
        "Notes and Observations Regarding Apple’s Announcements From ‘The Beat Goes On’ Special Event",
    );
}

#[test]
fn markdown() {
    check(
        "Read markdown_rules.txt to find out how _underscores around words_ will be interpreted",
        "Read markdown_rules.txt to Find Out How _Underscores Around Words_ Will Be Interpreted",
    );
}

#[test]
fn q_and_a() {
    check(
        "Q&A with Steve Jobs: 'That's what happens in technology'",
        "Q&A With Steve Jobs: 'That's What Happens in Technology'",
    );
}

#[test]
fn at_and_t() {
    check("What is AT&T's problem?", "What Is AT&T's Problem?");
}

#[test]
fn at_and_t2() {
    check(
        "Apple deal with AT&T falls through",
        "Apple Deal With AT&T Falls Through",
    );
}

#[test]
fn thisvthat() {
    check("this v that", "This v That");
}

#[test]
fn thisvthat2() {
    check("this vs that", "This vs That");
}

#[test]
fn thisvthat3() {
    check("this v. that", "This v. That");
}

#[test]
fn thisvthat4() {
    check("this vs. that", "This vs. That");
}

#[test]
fn sec() {
    check(
        "The SEC's Apple probe: what you need to know",
        "The SEC's Apple Probe: What You Need to Know",
    );
}

#[test]
fn small_word_at_start_in_quotes() {
    check(
        "'by the way, small word at the start but within quotes.'",
        "'By the Way, Small Word at the Start but Within Quotes.'",
    );
}

#[test]
fn small_word_at_end() {
    check(
        "Small word at end is nothing to be afraid of",
        "Small Word at End Is Nothing to Be Afraid Of",
    );
}

#[test]
fn subphrase_starting_with_small_word() {
    check(
        "Starting sub-phrase with a small word: a trick, perhaps?",
        "Starting Sub-Phrase With a Small Word: A Trick, Perhaps?",
    );
}

#[test]
fn subphrase_with_small_word_in_single_quotes() {
    check(
        "Sub-phrase with a small word in quotes: 'a trick, perhaps?'",
        "Sub-Phrase With a Small Word in Quotes: 'A Trick, Perhaps?'",
    );
}

#[test]
fn a_subphrase_with_small_word_in_single_quotes() {
    check(
        "a Sub-phrase with a small word in quotes: 'a trick, perhaps?'",
        "A Sub-Phrase With a Small Word in Quotes: 'A Trick, Perhaps?'",
    );
}

#[test]
fn subphrase_with_small_word_in_double_quotes() {
    check(
        "Sub-phrase with a small word in quotes: \"a trick, perhaps?\"",
        "Sub-Phrase With a Small Word in Quotes: \"A Trick, Perhaps?\"",
    );
}

#[test]
fn all_in_double_quotes() {
    check(
        "\"Nothing to Be Afraid of?\"",
        "\"Nothing to Be Afraid Of?\"",
    );
}

#[test]
fn a_thing() {
    check("a thing", "A Thing");
}

#[test]
fn dr_strangelove() {
    check(
        "Dr. Strangelove (or: how I Learned to Stop Worrying and Love the Bomb)",
        "Dr. Strangelove (Or: How I Learned to Stop Worrying and Love the Bomb)",
    );
}

#[test]
fn trimming() {
    check("  this is trimming", "This Is Trimming");
}

#[test]
fn trimming2() {
    check("this is trimming  ", "This Is Trimming");
}

#[test]
fn trimming3() {
    check("  this is trimming  ", "This Is Trimming");
}

#[test]
fn yelling() {
    check("IF IT’S ALL CAPS, FIX IT", "If It’s All Caps, Fix It");
}

#[test]
fn slashes() {
    check(
        "What could/should be done about slashes?",
        "What Could/Should Be Done About Slashes?",
    );
}

#[test]
fn paths() {
    check(
        "Never touch paths like /var/run before/after /boot",
        "Never Touch Paths Like /var/run Before/After /boot",
    );
}

#[test]
fn man_in_the_middle() {
    check(
        "They executed a man-in-the-middle attack",
        "They Executed a Man-in-the-Middle Attack",
    );
}

#[test]
fn man_in_the_machine() {
    check(
        "Jonathan Kim on Alex Gibney’s ‘Steve Jobs: The man in the machine’",
        "Jonathan Kim on Alex Gibney’s ‘Steve Jobs: The Man in the Machine’",
    );
}

#[test]
fn lower_small_words() {
    check(
        "Way Of The Dragon makes Of In An A lowercase",
        "Way of the Dragon Makes of in an a Lowercase",
    );
}

#[test]
fn small_greek_letters() {
    check("μ", "Μ");
}

#[test]
fn japanese() {
    check(
        "発売時の名称は「apple macintosh」であったが、後に拡張版のMacintosh 512Kが発売された段階で「macintosh 128K」と再命名された。test",
        "発売時の名称は「Apple Macintosh」であったが、後に拡張版のMacintosh 512Kが発売された段階で「Macintosh 128K」と再命名された。Test",
    );
}

const SAMPLES: &[&str] = &[
    "",
    "   ",
    "a thing",
    "A Thing",
    "Small word at end is nothing to be afraid of",
    "IF IT’S ALL CAPS, FIX IT",
    "email someone@gmail.com",
    "/var/run",
    "AT&T's problem",
    "could/should",
    "  this is trimming  ",
    "Q&A with Steve Jobs: 'That's what happens in technology'",
    "Dr. Strangelove (or: how I Learned to Stop Worrying and Love the Bomb)",
    "(ABC) ((ABC)) (ABC ABC) ((ABC) (ABC)) (Abc) (abc) (aBC) (aBc) (ABC)/(ABC) (ABC)/abc ABC",
    "Read markdown_rules.txt to find out how _underscores around words_ will be interpreted",
    "this vs. that",
    "2lmc Spool: 'Gruber on OmniFocus and Vapo(u)rware'",
];

/// Re-titlecasing an already titlecased string leaves it unchanged.
#[test]
fn idempotence_on_samples() {
    for input in SAMPLES {
        let once = titlecase(input);
        let twice = titlecase(&once);
        assert_eq!(twice, once, "not a fixed point for {:?}", input);
    }
}

/// The characters whose case cannot change, spaces aside, are the same
/// multiset before and after.
#[test]
fn non_case_characters_preserved_on_samples() {
    fn caseless_multiset(s: &str) -> Vec<char> {
        let mut v: Vec<char> = s
            .chars()
            .filter(|c| !c.is_whitespace() && c.to_lowercase().eq(c.to_uppercase()))
            .collect();
        v.sort();
        v
    }
    for input in SAMPLES {
        let out = titlecase(input);
        assert_eq!(
            caseless_multiset(input),
            caseless_multiset(&out),
            "characters changed for {:?}",
            input
        );
    }
}

#[test]
fn email_is_never_recased() {
    check("email someone@gmail.com", "Email someone@gmail.com");
    check("/var/run", "/var/run");
}

#[test]
fn possessive_of_internal_caps_token_is_kept() {
    check("AT&T's problem", "AT&T's Problem");
}

#[test]
fn slash_compound_cased_per_segment() {
    check("could/should", "Could/Should");
}

#[test]
fn surrounding_whitespace_is_trimmed() {
    check("  this is trimming  ", "This Is Trimming");
}

#[test]
fn yelling_with_no_other_signal_is_recased() {
    check("IF IT'S ALL CAPS, FIX IT", "If It's All Caps, Fix It");
}

#[test]
fn empty_and_blank_inputs() {
    check("", "");
    check("   ", "");
    check("_", "_");
    check("___", "___");
}
