//! What holds of the talk with the user.

use vstd::prelude::*;

use crate::session;
use crate::session::LoadDecision;
use crate::template::TemplateConfig;
use crate::text;
use crate::text::Text;
use crate::text_laws;
use crate::text_laws::{law_lowercase, law_trimmed_ends, law_trimmed_of_spaced, law_white_space};

verus! {

/// `answer` is the word `word`, in capitals or not, with nothing but white space
/// around it.
pub open spec fn answers(answer: Text, word: Text) -> bool {
    exists|from: int|
        {
            &&& 0 <= from <= from + word.len() <= answer.len()
            &&& text_laws::spells(#[trigger] answer.subrange(from, from + word.len()), word)
            &&& forall|i: int| 0 <= i < from ==> text::white_space(#[trigger] answer[i])
            &&& forall|i: int|
                from + word.len() <= i < answer.len() ==> text::white_space(#[trigger] answer[i])
        }
}

/// `word` is made of small letters.
spec fn small(word: Text) -> bool {
    word.len() > 0 && forall|i: int| 0 <= i < word.len() ==> 'a' <= #[trigger] word[i] <= 'z'
}

proof fn lemma_answered(answer: Text, word: Text)
    requires
        small(word),
        answers(answer, word),
    ensures
        text::lowercase(text::trimmed(answer)) == word,
{
    let n = word.len() as int;
    let from = choose|from: int|
        {
            &&& 0 <= from <= from + n <= answer.len()
            &&& text_laws::spells(#[trigger] answer.subrange(from, from + n), word)
            &&& forall|i: int| 0 <= i < from ==> text::white_space(#[trigger] answer[i])
            &&& forall|i: int|
                from + n <= i < answer.len() ==> text::white_space(#[trigger] answer[i])
        };
    let t = answer.subrange(from, from + n);
    let before = answer.take(from);
    let after = answer.skip(from + n);
    assert(answer =~= before + t + after);
    assert forall|i: int| 0 <= i < t.len() implies #[trigger] t[i] <= '\u{7f}'
        && !text::white_space(t[i]) by {
        assert('a' <= word[i] <= 'z');
        law_white_space(t[i]);
    }
    assert(t[n - 1] == t.last());
    assert(!text::white_space(t[0]) && !text::white_space(t[n - 1]));
    law_trimmed_of_spaced(before, t, after);
    law_lowercase(t, word);
}

proof fn lemma_answers(answer: Text, word: Text)
    requires
        forall|i: int| 0 <= i < answer.len() ==> #[trigger] answer[i] <= '\u{7f}',
        small(word),
        text::lowercase(text::trimmed(answer)) == word,
    ensures
        answers(answer, word),
{
    law_trimmed_ends(answer);
    let t = text::trimmed(answer);
    let from = choose|from: int|
        0 <= from <= from + t.len() <= answer.len() && t == #[trigger] answer.subrange(
            from,
            from + t.len(),
        ) && (forall|i: int| 0 <= i < from ==> text::white_space(#[trigger] answer[i])) && (forall|
            i: int,
        |
            from + t.len() <= i < answer.len() ==> text::white_space(#[trigger] answer[i]));
    assert forall|i: int| 0 <= i < t.len() implies #[trigger] t[i] <= '\u{7f}' by {
        assert(t[i] == answer[from + i]);
    }
    law_lowercase(t, word);
    assert(text_laws::spells(answer.subrange(from, from + word.len()), word));
}

/// `y` and `yes` mean to load, `n` and `no` not to, in capitals or not and with
/// white space around them; an answer in ASCII that is none of these is asked
/// for again.
pub proof fn law_answers(answer: Text)
    ensures
        answers(answer, "y"@) || answers(answer, "yes"@) ==> session::decision_of(answer) == Some(
            LoadDecision::Yes,
        ),
        answers(answer, "n"@) || answers(answer, "no"@) ==> session::decision_of(answer) == Some(
            LoadDecision::No,
        ),
        (forall|i: int| 0 <= i < answer.len() ==> #[trigger] answer[i] <= '\u{7f}') ==> (
        session::decision_of(answer) is None <==> !answers(answer, "y"@) && !answers(answer, "yes"@)
            && !answers(answer, "n"@) && !answers(answer, "no"@)),
{
    reveal_strlit("y");
    reveal_strlit("yes");
    reveal_strlit("n");
    reveal_strlit("no");
    assert("y"@[0] == 'y' && "yes"@[0] == 'y' && "n"@[0] == 'n' && "no"@[0] == 'n');
    assert(small("y"@) && small("yes"@) && small("n"@) && small("no"@));
    if answers(answer, "y"@) {
        lemma_answered(answer, "y"@);
    }
    if answers(answer, "yes"@) {
        lemma_answered(answer, "yes"@);
    }
    if answers(answer, "n"@) {
        lemma_answered(answer, "n"@);
    }
    if answers(answer, "no"@) {
        lemma_answered(answer, "no"@);
    }
    if forall|i: int| 0 <= i < answer.len() ==> #[trigger] answer[i] <= '\u{7f}' {
        let said = text::lowercase(text::trimmed(answer));
        if said == "y"@ {
            lemma_answers(answer, "y"@);
        } else if said == "yes"@ {
            lemma_answers(answer, "yes"@);
        } else if said == "n"@ {
            lemma_answers(answer, "n"@);
        } else if said == "no"@ {
            lemma_answers(answer, "no"@);
        }
    }
}

/// What is about to be loaded is shown line by line: the name of the template,
/// its version and description, the object and the operation, and the number of
/// records, between two rules.
pub proof fn law_summary(template_config: TemplateConfig, record_count: nat)
    ensures
        session::summary(template_config, record_count) == text::joined(
            seq![
                "----------------------------------------"@,
                "Template:    "@ + template_config.name@,
                "Version:     "@ + text::decimal(template_config.version as nat),
                "Description: "@ + template_config.description@,
                "Object:      "@ + template_config.target.object@,
                "Operation:   "@ + template_config.target.operation@,
                "Records:     "@ + text::decimal(record_count),
                "----------------------------------------"@,
            ],
            "\n"@,
        ),
{
    let rule = "----------------------------------------"@;
    let a = "Template:    "@ + template_config.name@;
    let b = "Version:     "@ + text::decimal(template_config.version as nat);
    let c = "Description: "@ + template_config.description@;
    let d = "Object:      "@ + template_config.target.object@;
    let e = "Operation:   "@ + template_config.target.operation@;
    let f = "Records:     "@ + text::decimal(record_count);
    let n = "\n"@;
    lemma_labels();
    lemma_eight(rule, a, b, c, d, e, f, n);
    let shown = session::summary(template_config, record_count);
    assert(shown =~= rule + n + a + n + b + n + c + n + d + n + e + n + f + n + rule);
}

proof fn lemma_labels()
    ensures
        "----------------------------------------\nTemplate:    "@
            == "----------------------------------------"@ + "\n"@ + "Template:    "@,
        "\nVersion:     "@ == "\n"@ + "Version:     "@,
        "\nDescription: "@ == "\n"@ + "Description: "@,
        "\nObject:      "@ == "\n"@ + "Object:      "@,
        "\nOperation:   "@ == "\n"@ + "Operation:   "@,
        "\nRecords:     "@ == "\n"@ + "Records:     "@,
        "\n----------------------------------------"@ == "\n"@
            + "----------------------------------------"@,
{
    reveal_strlit("\n");
    assert("----------------------------------------\nTemplate:    "@
        =~= "----------------------------------------"@ + "\n"@ + "Template:    "@) by {
        reveal_strlit("----------------------------------------\nTemplate:    ");
        reveal_strlit("----------------------------------------");
        reveal_strlit("Template:    ");
    }
    assert("\nVersion:     "@ =~= "\n"@ + "Version:     "@) by {
        reveal_strlit("\nVersion:     ");
        reveal_strlit("Version:     ");
    }
    assert("\nDescription: "@ =~= "\n"@ + "Description: "@) by {
        reveal_strlit("\nDescription: ");
        reveal_strlit("Description: ");
    }
    assert("\nObject:      "@ =~= "\n"@ + "Object:      "@) by {
        reveal_strlit("\nObject:      ");
        reveal_strlit("Object:      ");
    }
    assert("\nOperation:   "@ =~= "\n"@ + "Operation:   "@) by {
        reveal_strlit("\nOperation:   ");
        reveal_strlit("Operation:   ");
    }
    assert("\nRecords:     "@ =~= "\n"@ + "Records:     "@) by {
        reveal_strlit("\nRecords:     ");
        reveal_strlit("Records:     ");
    }
    assert("\n----------------------------------------"@ =~= "\n"@
        + "----------------------------------------"@) by {
        reveal_strlit("\n----------------------------------------");
        reveal_strlit("----------------------------------------");
    }
}

proof fn lemma_eight(rule: Text, a: Text, b: Text, c: Text, d: Text, e: Text, f: Text, n: Text)
    ensures
        text::joined(seq![rule, a, b, c, d, e, f, rule], n) == rule + n + a + n + b + n + c + n + d
            + n + e + n + f + n + rule,
{
    reveal_with_fuel(text::joined, 9);
    let parts = seq![rule, a, b, c, d, e, f, rule];
    assert(parts.drop_last() =~= seq![rule, a, b, c, d, e, f]);
    assert(parts.drop_last().drop_last() =~= seq![rule, a, b, c, d, e]);
    assert(seq![rule, a, b, c, d, e].drop_last() =~= seq![rule, a, b, c, d]);
    assert(seq![rule, a, b, c, d].drop_last() =~= seq![rule, a, b, c]);
    assert(seq![rule, a, b, c].drop_last() =~= seq![rule, a, b]);
    assert(seq![rule, a, b].drop_last() =~= seq![rule, a]);
    assert(seq![rule, a].drop_last() =~= seq![rule]);
}

} // verus!
