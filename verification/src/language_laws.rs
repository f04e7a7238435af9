//! What language codes stand for.

use crate::text::ascii_lowercase;
use crate::video::{language_text, languages_a, languages_b, name_in};
use vstd::prelude::*;

verus! {

/// A number for a word of two or three letters; different words of these lengths have different
/// numbers.
spec fn mark(w: Seq<char>) -> int {
    if w.len() == 2 {
        w[0] as int * 256 + w[1] as int
    } else if w.len() == 3 {
        w[0] as int * 65_536 + w[1] as int * 256 + w[2] as int
    } else {
        0
    }
}

/// Where a word stands in a table, by its number.
spec fn place_a(m: int) -> int {
    if m == 25966 {
        0
    } else if m == 6647399 {
        1
    } else if m == 27233 {
        2
    } else if m == 6975598 {
        3
    } else if m == 25971 {
        4
    } else if m == 7565409 {
        5
    } else if m == 26226 {
        6
    } else if m == 6713957 {
        7
    } else if m == 6713953 {
        8
    } else if m == 25701 {
        9
    } else if m == 6776178 {
        10
    } else if m == 6579573 {
        11
    } else if m == 26996 {
        12
    } else if m == 6911073 {
        13
    } else if m == 29301 {
        14
    } else if m == 7501171 {
        15
    } else if m == 31336 {
        16
    } else if m == 6514793 {
        17
    } else if m == 8022127 {
        18
    } else if m == 27503 {
        19
    } else if m == 7040882 {
        20
    } else if m == 28788 {
        21
    } else if m == 7368562 {
        22
    } else if m == 24946 {
        23
    } else if m == 6386273 {
        24
    } else if m == 26729 {
        25
    } else if m == 6842734 {
        26
    } else if m == 28268 {
        27
    } else if m == 6583668 {
        28
    } else if m == 7236708 {
        29
    } else if m == 28780 {
        30
    } else {
        -1
    }
}

/// Where a word stands in a table, by its number.
spec fn place_b(m: int) -> int {
    if m == 7368556 {
        0
    } else if m == 29810 {
        1
    } else if m == 7632242 {
        2
    } else if m == 29558 {
        3
    } else if m == 7567205 {
        4
    } else if m == 28271 {
        5
    } else if m == 7237490 {
        6
    } else if m == 25697 {
        7
    } else if m == 6578542 {
        8
    } else if m == 26217 {
        9
    } else if m == 6711662 {
        10
    } else if m == 25459 {
        11
    } else if m == 6519397 {
        12
    } else if m == 6514035 {
        13
    } else if m == 25964 {
        14
    } else if m == 6779493 {
        15
    } else if m == 6646892 {
        16
    } else if m == 26725 {
        17
    } else if m == 6841698 {
        18
    } else if m == 29800 {
        19
    } else if m == 7628897 {
        20
    } else if m == 30313 {
        21
    } else if m == 7760229 {
        22
    } else if m == 30059 {
        23
    } else if m == 7695218 {
        24
    } else if m == 26741 {
        25
    } else if m == 6845806 {
        26
    } else if m == 29295 {
        27
    } else if m == 7501165 {
        28
    } else if m == 7499630 {
        29
    } else if m == 26980 {
        30
    } else if m == 6909540 {
        31
    } else {
        -1
    }
}

proof fn lemma_listed(table: Seq<(Seq<char>, Seq<char>)>, word: Seq<char>, k: int)
    requires
        0 <= k < table.len(),
        table[k].0 == word,
        forall|j: int| 0 <= j < k ==> (#[trigger] table[j]).0 != word,
    ensures
        name_in(table, word) == Some(table[k].1),
    decreases table.len(),
{
    if k > 0 {
        let rest = table.drop_first();
        assert(table[0].0 != word);
        assert forall|j: int| 0 <= j < k - 1 implies (#[trigger] rest[j]).0 != word by {
            assert(rest[j] == table[j + 1]);
        }
        assert(rest[k - 1] == table[k]);
        lemma_listed(rest, word, k - 1);
    }
}

proof fn lemma_unlisted(table: Seq<(Seq<char>, Seq<char>)>, word: Seq<char>)
    requires
        forall|j: int| 0 <= j < table.len() ==> (#[trigger] table[j]).0 != word,
    ensures
        name_in(table, word) is None,
    decreases table.len(),
{
    if table.len() > 0 {
        let rest = table.drop_first();
        assert(table[0].0 != word);
        assert forall|j: int| 0 <= j < rest.len() implies (#[trigger] rest[j]).0 != word by {
            assert(rest[j] == table[j + 1]);
        }
        lemma_unlisted(rest, word);
    }
}

#[verifier::rlimit(100)]
proof fn lemma_places_a()
    ensures
        languages_a().len() == 31,
        forall|j: int|
            0 <= j < 31 ==> place_a(mark((#[trigger] languages_a()[j]).0)) == j,
{
    let t = languages_a();
    reveal_strlit("en");
    assert(t[0].0 == "en"@ && mark("en"@) == 25966);
    reveal_strlit("eng");
    assert(t[1].0 == "eng"@ && mark("eng"@) == 6647399);
    reveal_strlit("ja");
    assert(t[2].0 == "ja"@ && mark("ja"@) == 27233);
    reveal_strlit("jpn");
    assert(t[3].0 == "jpn"@ && mark("jpn"@) == 6975598);
    reveal_strlit("es");
    assert(t[4].0 == "es"@ && mark("es"@) == 25971);
    reveal_strlit("spa");
    assert(t[5].0 == "spa"@ && mark("spa"@) == 7565409);
    reveal_strlit("fr");
    assert(t[6].0 == "fr"@ && mark("fr"@) == 26226);
    reveal_strlit("fre");
    assert(t[7].0 == "fre"@ && mark("fre"@) == 6713957);
    reveal_strlit("fra");
    assert(t[8].0 == "fra"@ && mark("fra"@) == 6713953);
    reveal_strlit("de");
    assert(t[9].0 == "de"@ && mark("de"@) == 25701);
    reveal_strlit("ger");
    assert(t[10].0 == "ger"@ && mark("ger"@) == 6776178);
    reveal_strlit("deu");
    assert(t[11].0 == "deu"@ && mark("deu"@) == 6579573);
    reveal_strlit("it");
    assert(t[12].0 == "it"@ && mark("it"@) == 26996);
    reveal_strlit("ita");
    assert(t[13].0 == "ita"@ && mark("ita"@) == 6911073);
    reveal_strlit("ru");
    assert(t[14].0 == "ru"@ && mark("ru"@) == 29301);
    reveal_strlit("rus");
    assert(t[15].0 == "rus"@ && mark("rus"@) == 7501171);
    reveal_strlit("zh");
    assert(t[16].0 == "zh"@ && mark("zh"@) == 31336);
    reveal_strlit("chi");
    assert(t[17].0 == "chi"@ && mark("chi"@) == 6514793);
    reveal_strlit("zho");
    assert(t[18].0 == "zho"@ && mark("zho"@) == 8022127);
    reveal_strlit("ko");
    assert(t[19].0 == "ko"@ && mark("ko"@) == 27503);
    reveal_strlit("kor");
    assert(t[20].0 == "kor"@ && mark("kor"@) == 7040882);
    reveal_strlit("pt");
    assert(t[21].0 == "pt"@ && mark("pt"@) == 28788);
    reveal_strlit("por");
    assert(t[22].0 == "por"@ && mark("por"@) == 7368562);
    reveal_strlit("ar");
    assert(t[23].0 == "ar"@ && mark("ar"@) == 24946);
    reveal_strlit("ara");
    assert(t[24].0 == "ara"@ && mark("ara"@) == 6386273);
    reveal_strlit("hi");
    assert(t[25].0 == "hi"@ && mark("hi"@) == 26729);
    reveal_strlit("hin");
    assert(t[26].0 == "hin"@ && mark("hin"@) == 6842734);
    reveal_strlit("nl");
    assert(t[27].0 == "nl"@ && mark("nl"@) == 28268);
    reveal_strlit("dut");
    assert(t[28].0 == "dut"@ && mark("dut"@) == 6583668);
    reveal_strlit("nld");
    assert(t[29].0 == "nld"@ && mark("nld"@) == 7236708);
    reveal_strlit("pl");
    assert(t[30].0 == "pl"@ && mark("pl"@) == 28780);
}

#[verifier::rlimit(100)]
proof fn lemma_places_b()
    ensures
        languages_b().len() == 32,
        forall|j: int|
            0 <= j < 32 ==> place_b(mark((#[trigger] languages_b()[j]).0)) == j,
{
    let t = languages_b();
    reveal_strlit("pol");
    assert(t[0].0 == "pol"@ && mark("pol"@) == 7368556);
    reveal_strlit("tr");
    assert(t[1].0 == "tr"@ && mark("tr"@) == 29810);
    reveal_strlit("tur");
    assert(t[2].0 == "tur"@ && mark("tur"@) == 7632242);
    reveal_strlit("sv");
    assert(t[3].0 == "sv"@ && mark("sv"@) == 29558);
    reveal_strlit("swe");
    assert(t[4].0 == "swe"@ && mark("swe"@) == 7567205);
    reveal_strlit("no");
    assert(t[5].0 == "no"@ && mark("no"@) == 28271);
    reveal_strlit("nor");
    assert(t[6].0 == "nor"@ && mark("nor"@) == 7237490);
    reveal_strlit("da");
    assert(t[7].0 == "da"@ && mark("da"@) == 25697);
    reveal_strlit("dan");
    assert(t[8].0 == "dan"@ && mark("dan"@) == 6578542);
    reveal_strlit("fi");
    assert(t[9].0 == "fi"@ && mark("fi"@) == 26217);
    reveal_strlit("fin");
    assert(t[10].0 == "fin"@ && mark("fin"@) == 6711662);
    reveal_strlit("cs");
    assert(t[11].0 == "cs"@ && mark("cs"@) == 25459);
    reveal_strlit("cze");
    assert(t[12].0 == "cze"@ && mark("cze"@) == 6519397);
    reveal_strlit("ces");
    assert(t[13].0 == "ces"@ && mark("ces"@) == 6514035);
    reveal_strlit("el");
    assert(t[14].0 == "el"@ && mark("el"@) == 25964);
    reveal_strlit("gre");
    assert(t[15].0 == "gre"@ && mark("gre"@) == 6779493);
    reveal_strlit("ell");
    assert(t[16].0 == "ell"@ && mark("ell"@) == 6646892);
    reveal_strlit("he");
    assert(t[17].0 == "he"@ && mark("he"@) == 26725);
    reveal_strlit("heb");
    assert(t[18].0 == "heb"@ && mark("heb"@) == 6841698);
    reveal_strlit("th");
    assert(t[19].0 == "th"@ && mark("th"@) == 29800);
    reveal_strlit("tha");
    assert(t[20].0 == "tha"@ && mark("tha"@) == 7628897);
    reveal_strlit("vi");
    assert(t[21].0 == "vi"@ && mark("vi"@) == 30313);
    reveal_strlit("vie");
    assert(t[22].0 == "vie"@ && mark("vie"@) == 7760229);
    reveal_strlit("uk");
    assert(t[23].0 == "uk"@ && mark("uk"@) == 30059);
    reveal_strlit("ukr");
    assert(t[24].0 == "ukr"@ && mark("ukr"@) == 7695218);
    reveal_strlit("hu");
    assert(t[25].0 == "hu"@ && mark("hu"@) == 26741);
    reveal_strlit("hun");
    assert(t[26].0 == "hun"@ && mark("hun"@) == 6845806);
    reveal_strlit("ro");
    assert(t[27].0 == "ro"@ && mark("ro"@) == 29295);
    reveal_strlit("rum");
    assert(t[28].0 == "rum"@ && mark("rum"@) == 7501165);
    reveal_strlit("ron");
    assert(t[29].0 == "ron"@ && mark("ron"@) == 7499630);
    reveal_strlit("id");
    assert(t[30].0 == "id"@ && mark("id"@) == 26980);
    reveal_strlit("ind");
    assert(t[31].0 == "ind"@ && mark("ind"@) == 6909540);
}

proof fn lemma_first_part(code: Seq<char>, k: int)
    requires
        0 <= k < languages_a().len(),
        ascii_lowercase(code) == languages_a()[k].0,
    ensures
        language_text(code) == languages_a()[k].1,
{
    lemma_places_a();
    let t = languages_a();
    assert forall|j: int| 0 <= j < k implies (#[trigger] t[j]).0 != t[k].0 by {
        assert(place_a(mark(t[j].0)) == j && place_a(mark(t[k].0)) == k);
    }
    lemma_listed(t, ascii_lowercase(code), k);
}

proof fn lemma_second_part(code: Seq<char>, k: int)
    requires
        0 <= k < languages_b().len(),
        ascii_lowercase(code) == languages_b()[k].0,
        place_a(mark(languages_b()[k].0)) == -1,
    ensures
        language_text(code) == languages_b()[k].1,
{
    lemma_places_a();
    lemma_places_b();
    let word = ascii_lowercase(code);
    let a = languages_a();
    assert forall|j: int| 0 <= j < a.len() implies (#[trigger] a[j]).0 != word by {
        assert(place_a(mark(a[j].0)) == j);
    }
    lemma_unlisted(a, word);
    let t = languages_b();
    assert forall|j: int| 0 <= j < k implies (#[trigger] t[j]).0 != t[k].0 by {
        assert(place_b(mark(t[j].0)) == j && place_b(mark(t[k].0)) == k);
    }
    lemma_listed(t, word, k);
}

/// Each code stands for its language, in either case. These are the languages up to Polish.
pub proof fn codes_name_their_language(code: Seq<char>)
    ensures
        ({
            let w = ascii_lowercase(code);
            let name = language_text(code);
            &&& (w == "en"@ || w == "eng"@) ==> name == "English"@
            &&& (w == "ja"@ || w == "jpn"@) ==> name == "Japanese"@
            &&& (w == "es"@ || w == "spa"@) ==> name == "Spanish"@
            &&& (w == "fr"@ || w == "fre"@ || w == "fra"@) ==> name == "French"@
            &&& (w == "de"@ || w == "ger"@ || w == "deu"@) ==> name == "German"@
            &&& (w == "it"@ || w == "ita"@) ==> name == "Italian"@
            &&& (w == "ru"@ || w == "rus"@) ==> name == "Russian"@
            &&& (w == "zh"@ || w == "chi"@ || w == "zho"@) ==> name == "Chinese"@
            &&& (w == "ko"@ || w == "kor"@) ==> name == "Korean"@
            &&& (w == "pt"@ || w == "por"@) ==> name == "Portuguese"@
            &&& (w == "ar"@ || w == "ara"@) ==> name == "Arabic"@
            &&& (w == "hi"@ || w == "hin"@) ==> name == "Hindi"@
            &&& (w == "nl"@ || w == "dut"@ || w == "nld"@) ==> name == "Dutch"@
            &&& (w == "pl"@ || w == "pol"@) ==> name == "Polish"@
        }),
{
    let w = ascii_lowercase(code);
    let (a, b) = (languages_a(), languages_b());
    if w == "en"@ {
        assert(a[0] == ("en"@, "English"@));
        lemma_first_part(code, 0);
    }
    if w == "eng"@ {
        assert(a[1] == ("eng"@, "English"@));
        lemma_first_part(code, 1);
    }
    if w == "ja"@ {
        assert(a[2] == ("ja"@, "Japanese"@));
        lemma_first_part(code, 2);
    }
    if w == "jpn"@ {
        assert(a[3] == ("jpn"@, "Japanese"@));
        lemma_first_part(code, 3);
    }
    if w == "es"@ {
        assert(a[4] == ("es"@, "Spanish"@));
        lemma_first_part(code, 4);
    }
    if w == "spa"@ {
        assert(a[5] == ("spa"@, "Spanish"@));
        lemma_first_part(code, 5);
    }
    if w == "fr"@ {
        assert(a[6] == ("fr"@, "French"@));
        lemma_first_part(code, 6);
    }
    if w == "fre"@ {
        assert(a[7] == ("fre"@, "French"@));
        lemma_first_part(code, 7);
    }
    if w == "fra"@ {
        assert(a[8] == ("fra"@, "French"@));
        lemma_first_part(code, 8);
    }
    if w == "de"@ {
        assert(a[9] == ("de"@, "German"@));
        lemma_first_part(code, 9);
    }
    if w == "ger"@ {
        assert(a[10] == ("ger"@, "German"@));
        lemma_first_part(code, 10);
    }
    if w == "deu"@ {
        assert(a[11] == ("deu"@, "German"@));
        lemma_first_part(code, 11);
    }
    if w == "it"@ {
        assert(a[12] == ("it"@, "Italian"@));
        lemma_first_part(code, 12);
    }
    if w == "ita"@ {
        assert(a[13] == ("ita"@, "Italian"@));
        lemma_first_part(code, 13);
    }
    if w == "ru"@ {
        assert(a[14] == ("ru"@, "Russian"@));
        lemma_first_part(code, 14);
    }
    if w == "rus"@ {
        assert(a[15] == ("rus"@, "Russian"@));
        lemma_first_part(code, 15);
    }
    if w == "zh"@ {
        assert(a[16] == ("zh"@, "Chinese"@));
        lemma_first_part(code, 16);
    }
    if w == "chi"@ {
        assert(a[17] == ("chi"@, "Chinese"@));
        lemma_first_part(code, 17);
    }
    if w == "zho"@ {
        assert(a[18] == ("zho"@, "Chinese"@));
        lemma_first_part(code, 18);
    }
    if w == "ko"@ {
        assert(a[19] == ("ko"@, "Korean"@));
        lemma_first_part(code, 19);
    }
    if w == "kor"@ {
        assert(a[20] == ("kor"@, "Korean"@));
        lemma_first_part(code, 20);
    }
    if w == "pt"@ {
        assert(a[21] == ("pt"@, "Portuguese"@));
        lemma_first_part(code, 21);
    }
    if w == "por"@ {
        assert(a[22] == ("por"@, "Portuguese"@));
        lemma_first_part(code, 22);
    }
    if w == "ar"@ {
        assert(a[23] == ("ar"@, "Arabic"@));
        lemma_first_part(code, 23);
    }
    if w == "ara"@ {
        assert(a[24] == ("ara"@, "Arabic"@));
        lemma_first_part(code, 24);
    }
    if w == "hi"@ {
        assert(a[25] == ("hi"@, "Hindi"@));
        lemma_first_part(code, 25);
    }
    if w == "hin"@ {
        assert(a[26] == ("hin"@, "Hindi"@));
        lemma_first_part(code, 26);
    }
    if w == "nl"@ {
        assert(a[27] == ("nl"@, "Dutch"@));
        lemma_first_part(code, 27);
    }
    if w == "dut"@ {
        assert(a[28] == ("dut"@, "Dutch"@));
        lemma_first_part(code, 28);
    }
    if w == "nld"@ {
        assert(a[29] == ("nld"@, "Dutch"@));
        lemma_first_part(code, 29);
    }
    if w == "pl"@ {
        assert(a[30] == ("pl"@, "Polish"@));
        lemma_first_part(code, 30);
    }
    if w == "pol"@ {
        assert(b[0] == ("pol"@, "Polish"@));
        reveal_strlit("pol");
        lemma_second_part(code, 0);
    }
}

/// Each code stands for its language, in either case. These are the further languages.
pub proof fn further_codes_name_their_language(code: Seq<char>)
    ensures
        ({
            let w = ascii_lowercase(code);
            let name = language_text(code);
            &&& (w == "tr"@ || w == "tur"@) ==> name == "Turkish"@
            &&& (w == "sv"@ || w == "swe"@) ==> name == "Swedish"@
            &&& (w == "no"@ || w == "nor"@) ==> name == "Norwegian"@
            &&& (w == "da"@ || w == "dan"@) ==> name == "Danish"@
            &&& (w == "fi"@ || w == "fin"@) ==> name == "Finnish"@
            &&& (w == "cs"@ || w == "cze"@ || w == "ces"@) ==> name == "Czech"@
            &&& (w == "el"@ || w == "gre"@ || w == "ell"@) ==> name == "Greek"@
            &&& (w == "he"@ || w == "heb"@) ==> name == "Hebrew"@
            &&& (w == "th"@ || w == "tha"@) ==> name == "Thai"@
            &&& (w == "vi"@ || w == "vie"@) ==> name == "Vietnamese"@
            &&& (w == "uk"@ || w == "ukr"@) ==> name == "Ukrainian"@
            &&& (w == "hu"@ || w == "hun"@) ==> name == "Hungarian"@
            &&& (w == "ro"@ || w == "rum"@ || w == "ron"@) ==> name == "Romanian"@
            &&& (w == "id"@ || w == "ind"@) ==> name == "Indonesian"@
        }),
{
    let w = ascii_lowercase(code);
    let (a, b) = (languages_a(), languages_b());
    if w == "tr"@ {
        assert(b[1] == ("tr"@, "Turkish"@));
        reveal_strlit("tr");
        lemma_second_part(code, 1);
    }
    if w == "tur"@ {
        assert(b[2] == ("tur"@, "Turkish"@));
        reveal_strlit("tur");
        lemma_second_part(code, 2);
    }
    if w == "sv"@ {
        assert(b[3] == ("sv"@, "Swedish"@));
        reveal_strlit("sv");
        lemma_second_part(code, 3);
    }
    if w == "swe"@ {
        assert(b[4] == ("swe"@, "Swedish"@));
        reveal_strlit("swe");
        lemma_second_part(code, 4);
    }
    if w == "no"@ {
        assert(b[5] == ("no"@, "Norwegian"@));
        reveal_strlit("no");
        lemma_second_part(code, 5);
    }
    if w == "nor"@ {
        assert(b[6] == ("nor"@, "Norwegian"@));
        reveal_strlit("nor");
        lemma_second_part(code, 6);
    }
    if w == "da"@ {
        assert(b[7] == ("da"@, "Danish"@));
        reveal_strlit("da");
        lemma_second_part(code, 7);
    }
    if w == "dan"@ {
        assert(b[8] == ("dan"@, "Danish"@));
        reveal_strlit("dan");
        lemma_second_part(code, 8);
    }
    if w == "fi"@ {
        assert(b[9] == ("fi"@, "Finnish"@));
        reveal_strlit("fi");
        lemma_second_part(code, 9);
    }
    if w == "fin"@ {
        assert(b[10] == ("fin"@, "Finnish"@));
        reveal_strlit("fin");
        lemma_second_part(code, 10);
    }
    if w == "cs"@ {
        assert(b[11] == ("cs"@, "Czech"@));
        reveal_strlit("cs");
        lemma_second_part(code, 11);
    }
    if w == "cze"@ {
        assert(b[12] == ("cze"@, "Czech"@));
        reveal_strlit("cze");
        lemma_second_part(code, 12);
    }
    if w == "ces"@ {
        assert(b[13] == ("ces"@, "Czech"@));
        reveal_strlit("ces");
        lemma_second_part(code, 13);
    }
    if w == "el"@ {
        assert(b[14] == ("el"@, "Greek"@));
        reveal_strlit("el");
        lemma_second_part(code, 14);
    }
    if w == "gre"@ {
        assert(b[15] == ("gre"@, "Greek"@));
        reveal_strlit("gre");
        lemma_second_part(code, 15);
    }
    if w == "ell"@ {
        assert(b[16] == ("ell"@, "Greek"@));
        reveal_strlit("ell");
        lemma_second_part(code, 16);
    }
    if w == "he"@ {
        assert(b[17] == ("he"@, "Hebrew"@));
        reveal_strlit("he");
        lemma_second_part(code, 17);
    }
    if w == "heb"@ {
        assert(b[18] == ("heb"@, "Hebrew"@));
        reveal_strlit("heb");
        lemma_second_part(code, 18);
    }
    if w == "th"@ {
        assert(b[19] == ("th"@, "Thai"@));
        reveal_strlit("th");
        lemma_second_part(code, 19);
    }
    if w == "tha"@ {
        assert(b[20] == ("tha"@, "Thai"@));
        reveal_strlit("tha");
        lemma_second_part(code, 20);
    }
    if w == "vi"@ {
        assert(b[21] == ("vi"@, "Vietnamese"@));
        reveal_strlit("vi");
        lemma_second_part(code, 21);
    }
    if w == "vie"@ {
        assert(b[22] == ("vie"@, "Vietnamese"@));
        reveal_strlit("vie");
        lemma_second_part(code, 22);
    }
    if w == "uk"@ {
        assert(b[23] == ("uk"@, "Ukrainian"@));
        reveal_strlit("uk");
        lemma_second_part(code, 23);
    }
    if w == "ukr"@ {
        assert(b[24] == ("ukr"@, "Ukrainian"@));
        reveal_strlit("ukr");
        lemma_second_part(code, 24);
    }
    if w == "hu"@ {
        assert(b[25] == ("hu"@, "Hungarian"@));
        reveal_strlit("hu");
        lemma_second_part(code, 25);
    }
    if w == "hun"@ {
        assert(b[26] == ("hun"@, "Hungarian"@));
        reveal_strlit("hun");
        lemma_second_part(code, 26);
    }
    if w == "ro"@ {
        assert(b[27] == ("ro"@, "Romanian"@));
        reveal_strlit("ro");
        lemma_second_part(code, 27);
    }
    if w == "rum"@ {
        assert(b[28] == ("rum"@, "Romanian"@));
        reveal_strlit("rum");
        lemma_second_part(code, 28);
    }
    if w == "ron"@ {
        assert(b[29] == ("ron"@, "Romanian"@));
        reveal_strlit("ron");
        lemma_second_part(code, 29);
    }
    if w == "id"@ {
        assert(b[30] == ("id"@, "Indonesian"@));
        reveal_strlit("id");
        lemma_second_part(code, 30);
    }
    if w == "ind"@ {
        assert(b[31] == ("ind"@, "Indonesian"@));
        reveal_strlit("ind");
        lemma_second_part(code, 31);
    }
}

/// Whether a code is listed.
pub open spec fn is_listed_code(w: Seq<char>) -> bool {
    ||| w == "en"@
    ||| w == "eng"@
    ||| w == "ja"@
    ||| w == "jpn"@
    ||| w == "es"@
    ||| w == "spa"@
    ||| w == "fr"@
    ||| w == "fre"@
    ||| w == "fra"@
    ||| w == "de"@
    ||| w == "ger"@
    ||| w == "deu"@
    ||| w == "it"@
    ||| w == "ita"@
    ||| w == "ru"@
    ||| w == "rus"@
    ||| w == "zh"@
    ||| w == "chi"@
    ||| w == "zho"@
    ||| w == "ko"@
    ||| w == "kor"@
    ||| w == "pt"@
    ||| w == "por"@
    ||| w == "ar"@
    ||| w == "ara"@
    ||| w == "hi"@
    ||| w == "hin"@
    ||| w == "nl"@
    ||| w == "dut"@
    ||| w == "nld"@
    ||| w == "pl"@
    ||| w == "pol"@
    ||| w == "tr"@
    ||| w == "tur"@
    ||| w == "sv"@
    ||| w == "swe"@
    ||| w == "no"@
    ||| w == "nor"@
    ||| w == "da"@
    ||| w == "dan"@
    ||| w == "fi"@
    ||| w == "fin"@
    ||| w == "cs"@
    ||| w == "cze"@
    ||| w == "ces"@
    ||| w == "el"@
    ||| w == "gre"@
    ||| w == "ell"@
    ||| w == "he"@
    ||| w == "heb"@
    ||| w == "th"@
    ||| w == "tha"@
    ||| w == "vi"@
    ||| w == "vie"@
    ||| w == "uk"@
    ||| w == "ukr"@
    ||| w == "hu"@
    ||| w == "hun"@
    ||| w == "ro"@
    ||| w == "rum"@
    ||| w == "ron"@
    ||| w == "id"@
    ||| w == "ind"@
}

/// A code that is not listed stands for itself.
pub proof fn other_codes_stand_for_themselves(code: Seq<char>)
    requires
        !is_listed_code(ascii_lowercase(code)),
    ensures
        language_text(code) == code,
{
    let w = ascii_lowercase(code);
    let (a, b) = (languages_a(), languages_b());
    lemma_unlisted(a, w);
    lemma_unlisted(b, w);
}

} // verus!
