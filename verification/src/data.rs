//! The embedded rule data and the proofs that each block is well formed.
use vstd::prelude::*;
use vstd::string::StringSliceAdditionalSpecFns;
use crate::table::{
    block_wf, block_lines, lines_from, rule_of, rules_contain, sorted_rules, lemma_sorted_cons,
    lemma_sorted_single, block_lookup, type_of, law_block_lookup_finds_each_line,
    law_block_lookup_outside,
};
use crate::bytes::{bytes_lt, find_byte};

verus! {

/// The version of the list the blocks were written from.
pub const PSL_VERSION: &'static str = "2025-subset";

/// Ordinary rules (`com`, `co.uk`), one `rule\tS` line each.
pub const RULES: &'static str = "ac\tI\nac.be\tI\nac.in\tI\nac.jp\tI\nac.kr\tI\nac.nz\tI\nac.uk\tI\nai\tI\nak.us\tI\napp\tI\nappspot.com\tP\nasn.au\tI\nau\tI\nazurewebsites.net\tP\nbc.ca\tI\nbe\tI\nbiz\tI\nblogspot.com\tP\nbr\tI\nca\tI\nch\tI\ncloudfront.net\tP\ncn\tI\nco\tI\nco.in\tI\nco.jp\tI\nco.kr\tI\nco.nz\tI\nco.uk\tI\ncom\tI\ncom.ai\tI\ncom.au\tI\ncom.br\tI\ncom.cn\tI\ncom.co\tI\ncom.es\tI\ncom.hk\tI\ncom.mx\tI\ncom.pl\tI\ncom.sg\tI\ncom.tw\tI\nde\tI\ndev\tI\nedu\tI\nedu.au\tI\nedu.br\tI\nedu.cn\tI\nedu.co\tI\nedu.es\tI\nedu.hk\tI\nedu.in\tI\nedu.mx\tI\nedu.sg\tI\nedu.tw\tI\nes\tI\neu\tI\nfirebaseapp.com\tP\nfirm.in\tI\nfr\tI\ngen.in\tI\ngithub.io\tP\ngitlab.io\tP\ngo.jp\tI\ngo.kr\tI\ngob.es\tI\ngob.mx\tI\ngov\tI\ngov.au\tI\ngov.br\tI\ngov.cn\tI\ngov.co\tI\ngov.hk\tI\ngov.in\tI\ngov.sg\tI\ngov.tw\tI\ngov.uk\tI\ngovt.nz\tI\nherokuapp.com\tP\nhk\tI\nid.au\tI\nide.kyoto.jp\tI\nin\tI\nind.in\tI\ninfo\tI\nio\tI\nit\tI\njp\tI\nk12.ak.us\tI\nkr\tI\nkyoto.jp\tI\nltd.uk\tI\nly\tI\nme\tI\nme.uk\tI\nmx\tI\nne.jp\tI\nne.kr\tI\nnet\tI\nnet.ai\tI\nnet.au\tI\nnet.br\tI\nnet.cn\tI\nnet.co\tI\nnet.hk\tI\nnet.in\tI\nnet.mx\tI\nnet.nz\tI\nnet.pl\tI\nnet.sg\tI\nnet.tw\tI\nnet.uk\tI\nnetlify.app\tP\nnhs.uk\tI\nnl\tI\nno\tI\nnom.es\tI\nnz\tI\non.ca\tI\nor.jp\tI\nor.kr\tI\norg\tI\norg.ai\tI\norg.au\tI\norg.br\tI\norg.cn\tI\norg.co\tI\norg.es\tI\norg.hk\tI\norg.in\tI\norg.mx\tI\norg.nz\tI\norg.pl\tI\norg.sg\tI\norg.tw\tI\norg.uk\tI\npages.dev\tP\npl\tI\nplc.uk\tI\npolice.uk\tI\nqc.ca\tI\nre.kr\tI\nres.in\tI\ns3.amazonaws.com\tP\nschool.nz\tI\nse\tI\nsg\tI\ntv\tI\ntw\tI\nuk\tI\nuk.com\tP\nus\tI\nvercel.app\tP\nweb.app\tP\nworkers.dev\tP\nxn--55qx5d.cn\tI\nxn--fiqs8s\tI\nxn--io0a7i.cn\tI\nxn--od0alg.cn\tI\nxyz\tI";

/// The `Y` of each wildcard rule `*.Y`.
pub const WILDCARDS: &'static str = "ck\tI\nkawasaki.jp\tI\nkobe.jp\tI\nmm\tI\nsch.uk\tI";

/// The `X` of each exception rule `!X`.
pub const EXCEPTIONS: &'static str = "city.kawasaki.jp\tI\ncity.kobe.jp\tI\nwww.ck\tI";

/// Lines 152 to 158 of [`RULES`] are sorted.
proof fn lemma_rules_from_152()
    ensures
        sorted_rules(lines_from(RULES.spec_bytes(), 1283)),
        lines_from(RULES.spec_bytes(), 1283).len() > 0,
        lines_from(RULES.spec_bytes(), 1283)[0] == RULES.spec_bytes().subrange(1283, 1292),
        lines_from(RULES.spec_bytes(), 1283).len() == 7,
        lines_from(RULES.spec_bytes(), 1283).last() == RULES.spec_bytes().subrange(1368, 1373),
        RULES.spec_bytes().len() == 1373,
{
    reveal_strlit("ac\tI\nac.be\tI\nac.in\tI\nac.jp\tI\nac.kr\tI\nac.nz\tI\nac.uk\tI\nai\tI\nak.us\tI\napp\tI\nappspot.com\tP\nasn.au\tI\nau\tI\nazurewebsites.net\tP\nbc.ca\tI\nbe\tI\nbiz\tI\nblogspot.com\tP\nbr\tI\nca\tI\nch\tI\ncloudfront.net\tP\ncn\tI\nco\tI\nco.in\tI\nco.jp\tI\nco.kr\tI\nco.nz\tI\nco.uk\tI\ncom\tI\ncom.ai\tI\ncom.au\tI\ncom.br\tI\ncom.cn\tI\ncom.co\tI\ncom.es\tI\ncom.hk\tI\ncom.mx\tI\ncom.pl\tI\ncom.sg\tI\ncom.tw\tI\nde\tI\ndev\tI\nedu\tI\nedu.au\tI\nedu.br\tI\nedu.cn\tI\nedu.co\tI\nedu.es\tI\nedu.hk\tI\nedu.in\tI\nedu.mx\tI\nedu.sg\tI\nedu.tw\tI\nes\tI\neu\tI\nfirebaseapp.com\tP\nfirm.in\tI\nfr\tI\ngen.in\tI\ngithub.io\tP\ngitlab.io\tP\ngo.jp\tI\ngo.kr\tI\ngob.es\tI\ngob.mx\tI\ngov\tI\ngov.au\tI\ngov.br\tI\ngov.cn\tI\ngov.co\tI\ngov.hk\tI\ngov.in\tI\ngov.sg\tI\ngov.tw\tI\ngov.uk\tI\ngovt.nz\tI\nherokuapp.com\tP\nhk\tI\nid.au\tI\nide.kyoto.jp\tI\nin\tI\nind.in\tI\ninfo\tI\nio\tI\nit\tI\njp\tI\nk12.ak.us\tI\nkr\tI\nkyoto.jp\tI\nltd.uk\tI\nly\tI\nme\tI\nme.uk\tI\nmx\tI\nne.jp\tI\nne.kr\tI\nnet\tI\nnet.ai\tI\nnet.au\tI\nnet.br\tI\nnet.cn\tI\nnet.co\tI\nnet.hk\tI\nnet.in\tI\nnet.mx\tI\nnet.nz\tI\nnet.pl\tI\nnet.sg\tI\nnet.tw\tI\nnet.uk\tI\nnetlify.app\tP\nnhs.uk\tI\nnl\tI\nno\tI\nnom.es\tI\nnz\tI\non.ca\tI\nor.jp\tI\nor.kr\tI\norg\tI\norg.ai\tI\norg.au\tI\norg.br\tI\norg.cn\tI\norg.co\tI\norg.es\tI\norg.hk\tI\norg.in\tI\norg.mx\tI\norg.nz\tI\norg.pl\tI\norg.sg\tI\norg.tw\tI\norg.uk\tI\npages.dev\tP\npl\tI\nplc.uk\tI\npolice.uk\tI\nqc.ca\tI\nre.kr\tI\nres.in\tI\ns3.amazonaws.com\tP\nschool.nz\tI\nse\tI\nsg\tI\ntv\tI\ntw\tI\nuk\tI\nuk.com\tP\nus\tI\nvercel.app\tP\nweb.app\tP\nworkers.dev\tP\nxn--55qx5d.cn\tI\nxn--fiqs8s\tI\nxn--io0a7i.cn\tI\nxn--od0alg.cn\tI\nxyz\tI");
    broadcast use vstd::string::is_ascii_spec_bytes;
    let b = RULES.spec_bytes();
    assert(vstd::string::is_ascii(RULES));
    assert(lines_from(b, 1368) == seq![b.subrange(1368, 1373)]) by {
        reveal_with_fuel(find_byte, 7);
    }
    lemma_sorted_single(b.subrange(1368, 1373));
    assert(lines_from(b, 1352) == seq![b.subrange(1352, 1367)] + lines_from(b, 1368)) by {
        reveal_with_fuel(find_byte, 17);
        assert(b[1367] == 10u8);
    }
    assert(bytes_lt(rule_of(b.subrange(1352, 1367)), rule_of(b.subrange(1368, 1373)))) by {
        reveal_with_fuel(find_byte, 15);
        reveal_with_fuel(bytes_lt, 3);
    }
    lemma_sorted_cons(b.subrange(1352, 1367), lines_from(b, 1368));
    assert(lines_from(b, 1336) == seq![b.subrange(1336, 1351)] + lines_from(b, 1352)) by {
        reveal_with_fuel(find_byte, 17);
        assert(b[1351] == 10u8);
    }
    assert(bytes_lt(rule_of(b.subrange(1336, 1351)), rule_of(b.subrange(1352, 1367)))) by {
        reveal_with_fuel(find_byte, 15);
        reveal_with_fuel(bytes_lt, 6);
    }
    lemma_sorted_cons(b.subrange(1336, 1351), lines_from(b, 1352));
    assert(lines_from(b, 1323) == seq![b.subrange(1323, 1335)] + lines_from(b, 1336)) by {
        reveal_with_fuel(find_byte, 14);
        assert(b[1335] == 10u8);
    }
    assert(bytes_lt(rule_of(b.subrange(1323, 1335)), rule_of(b.subrange(1336, 1351)))) by {
        reveal_with_fuel(find_byte, 15);
        reveal_with_fuel(bytes_lt, 6);
    }
    lemma_sorted_cons(b.subrange(1323, 1335), lines_from(b, 1336));
    assert(lines_from(b, 1307) == seq![b.subrange(1307, 1322)] + lines_from(b, 1323)) by {
        reveal_with_fuel(find_byte, 17);
        assert(b[1322] == 10u8);
    }
    assert(bytes_lt(rule_of(b.subrange(1307, 1322)), rule_of(b.subrange(1323, 1335)))) by {
        reveal_with_fuel(find_byte, 15);
        reveal_with_fuel(bytes_lt, 6);
    }
    lemma_sorted_cons(b.subrange(1307, 1322), lines_from(b, 1323));
    assert(lines_from(b, 1293) == seq![b.subrange(1293, 1306)] + lines_from(b, 1307)) by {
        reveal_with_fuel(find_byte, 15);
        assert(b[1306] == 10u8);
    }
    assert(bytes_lt(rule_of(b.subrange(1293, 1306)), rule_of(b.subrange(1307, 1322)))) by {
        reveal_with_fuel(find_byte, 15);
        reveal_with_fuel(bytes_lt, 2);
    }
    lemma_sorted_cons(b.subrange(1293, 1306), lines_from(b, 1307));
    assert(lines_from(b, 1283) == seq![b.subrange(1283, 1292)] + lines_from(b, 1293)) by {
        reveal_with_fuel(find_byte, 11);
        assert(b[1292] == 10u8);
    }
    assert(bytes_lt(rule_of(b.subrange(1283, 1292)), rule_of(b.subrange(1293, 1306)))) by {
        reveal_with_fuel(find_byte, 13);
        reveal_with_fuel(bytes_lt, 3);
    }
    lemma_sorted_cons(b.subrange(1283, 1292), lines_from(b, 1293));
}

/// Lines 144 to 151 of [`RULES`] are sorted, given that the lines after them are.
proof fn lemma_rules_from_144()
    requires
        sorted_rules(lines_from(RULES.spec_bytes(), 1283)),
        lines_from(RULES.spec_bytes(), 1283).len() > 0,
        lines_from(RULES.spec_bytes(), 1283)[0] == RULES.spec_bytes().subrange(1283, 1292),
        lines_from(RULES.spec_bytes(), 1283).len() == 7,
        lines_from(RULES.spec_bytes(), 1283).last() == RULES.spec_bytes().subrange(1368, 1373),
    ensures
        sorted_rules(lines_from(RULES.spec_bytes(), 1231)),
        lines_from(RULES.spec_bytes(), 1231).len() > 0,
        lines_from(RULES.spec_bytes(), 1231)[0] == RULES.spec_bytes().subrange(1231, 1235),
        lines_from(RULES.spec_bytes(), 1231).len() == 15,
        lines_from(RULES.spec_bytes(), 1231).last() == RULES.spec_bytes().subrange(1368, 1373),
        RULES.spec_bytes().len() == 1373,
{
    reveal_strlit("ac\tI\nac.be\tI\nac.in\tI\nac.jp\tI\nac.kr\tI\nac.nz\tI\nac.uk\tI\nai\tI\nak.us\tI\napp\tI\nappspot.com\tP\nasn.au\tI\nau\tI\nazurewebsites.net\tP\nbc.ca\tI\nbe\tI\nbiz\tI\nblogspot.com\tP\nbr\tI\nca\tI\nch\tI\ncloudfront.net\tP\ncn\tI\nco\tI\nco.in\tI\nco.jp\tI\nco.kr\tI\nco.nz\tI\nco.uk\tI\ncom\tI\ncom.ai\tI\ncom.au\tI\ncom.br\tI\ncom.cn\tI\ncom.co\tI\ncom.es\tI\ncom.hk\tI\ncom.mx\tI\ncom.pl\tI\ncom.sg\tI\ncom.tw\tI\nde\tI\ndev\tI\nedu\tI\nedu.au\tI\nedu.br\tI\nedu.cn\tI\nedu.co\tI\nedu.es\tI\nedu.hk\tI\nedu.in\tI\nedu.mx\tI\nedu.sg\tI\nedu.tw\tI\nes\tI\neu\tI\nfirebaseapp.com\tP\nfirm.in\tI\nfr\tI\ngen.in\tI\ngithub.io\tP\ngitlab.io\tP\ngo.jp\tI\ngo.kr\tI\ngob.es\tI\ngob.mx\tI\ngov\tI\ngov.au\tI\ngov.br\tI\ngov.cn\tI\ngov.co\tI\ngov.hk\tI\ngov.in\tI\ngov.sg\tI\ngov.tw\tI\ngov.uk\tI\ngovt.nz\tI\nherokuapp.com\tP\nhk\tI\nid.au\tI\nide.kyoto.jp\tI\nin\tI\nind.in\tI\ninfo\tI\nio\tI\nit\tI\njp\tI\nk12.ak.us\tI\nkr\tI\nkyoto.jp\tI\nltd.uk\tI\nly\tI\nme\tI\nme.uk\tI\nmx\tI\nne.jp\tI\nne.kr\tI\nnet\tI\nnet.ai\tI\nnet.au\tI\nnet.br\tI\nnet.cn\tI\nnet.co\tI\nnet.hk\tI\nnet.in\tI\nnet.mx\tI\nnet.nz\tI\nnet.pl\tI\nnet.sg\tI\nnet.tw\tI\nnet.uk\tI\nnetlify.app\tP\nnhs.uk\tI\nnl\tI\nno\tI\nnom.es\tI\nnz\tI\non.ca\tI\nor.jp\tI\nor.kr\tI\norg\tI\norg.ai\tI\norg.au\tI\norg.br\tI\norg.cn\tI\norg.co\tI\norg.es\tI\norg.hk\tI\norg.in\tI\norg.mx\tI\norg.nz\tI\norg.pl\tI\norg.sg\tI\norg.tw\tI\norg.uk\tI\npages.dev\tP\npl\tI\nplc.uk\tI\npolice.uk\tI\nqc.ca\tI\nre.kr\tI\nres.in\tI\ns3.amazonaws.com\tP\nschool.nz\tI\nse\tI\nsg\tI\ntv\tI\ntw\tI\nuk\tI\nuk.com\tP\nus\tI\nvercel.app\tP\nweb.app\tP\nworkers.dev\tP\nxn--55qx5d.cn\tI\nxn--fiqs8s\tI\nxn--io0a7i.cn\tI\nxn--od0alg.cn\tI\nxyz\tI");
    broadcast use vstd::string::is_ascii_spec_bytes;
    let b = RULES.spec_bytes();
    assert(vstd::string::is_ascii(RULES));
    assert(lines_from(b, 1270) == seq![b.subrange(1270, 1282)] + lines_from(b, 1283)) by {
        reveal_with_fuel(find_byte, 14);
        assert(b[1282] == 10u8);
    }
    assert(bytes_lt(rule_of(b.subrange(1270, 1282)), rule_of(b.subrange(1283, 1292)))) by {
        reveal_with_fuel(find_byte, 12);
        reveal_with_fuel(bytes_lt, 2);
    }
    lemma_sorted_cons(b.subrange(1270, 1282), lines_from(b, 1283));
    assert(lines_from(b, 1265) == seq![b.subrange(1265, 1269)] + lines_from(b, 1270)) by {
        reveal_with_fuel(find_byte, 6);
        assert(b[1269] == 10u8);
    }
    assert(bytes_lt(rule_of(b.subrange(1265, 1269)), rule_of(b.subrange(1270, 1282)))) by {
        reveal_with_fuel(find_byte, 12);
        reveal_with_fuel(bytes_lt, 2);
    }
    lemma_sorted_cons(b.subrange(1265, 1269), lines_from(b, 1270));
    assert(lines_from(b, 1256) == seq![b.subrange(1256, 1264)] + lines_from(b, 1265)) by {
        reveal_with_fuel(find_byte, 10);
        assert(b[1264] == 10u8);
    }
    assert(bytes_lt(rule_of(b.subrange(1256, 1264)), rule_of(b.subrange(1265, 1269)))) by {
        reveal_with_fuel(find_byte, 8);
        reveal_with_fuel(bytes_lt, 3);
    }
    lemma_sorted_cons(b.subrange(1256, 1264), lines_from(b, 1265));
    assert(lines_from(b, 1251) == seq![b.subrange(1251, 1255)] + lines_from(b, 1256)) by {
        reveal_with_fuel(find_byte, 6);
        assert(b[1255] == 10u8);
    }
    assert(bytes_lt(rule_of(b.subrange(1251, 1255)), rule_of(b.subrange(1256, 1264)))) by {
        reveal_with_fuel(find_byte, 8);
        reveal_with_fuel(bytes_lt, 4);
    }
    lemma_sorted_cons(b.subrange(1251, 1255), lines_from(b, 1256));
    assert(lines_from(b, 1246) == seq![b.subrange(1246, 1250)] + lines_from(b, 1251)) by {
        reveal_with_fuel(find_byte, 6);
        assert(b[1250] == 10u8);
    }
    assert(bytes_lt(rule_of(b.subrange(1246, 1250)), rule_of(b.subrange(1251, 1255)))) by {
        reveal_with_fuel(find_byte, 4);
        reveal_with_fuel(bytes_lt, 2);
    }
    lemma_sorted_cons(b.subrange(1246, 1250), lines_from(b, 1251));
    assert(lines_from(b, 1241) == seq![b.subrange(1241, 1245)] + lines_from(b, 1246)) by {
        reveal_with_fuel(find_byte, 6);
        assert(b[1245] == 10u8);
    }
    assert(bytes_lt(rule_of(b.subrange(1241, 1245)), rule_of(b.subrange(1246, 1250)))) by {
        reveal_with_fuel(find_byte, 4);
        reveal_with_fuel(bytes_lt, 3);
    }
    lemma_sorted_cons(b.subrange(1241, 1245), lines_from(b, 1246));
    assert(lines_from(b, 1236) == seq![b.subrange(1236, 1240)] + lines_from(b, 1241)) by {
        reveal_with_fuel(find_byte, 6);
        assert(b[1240] == 10u8);
    }
    assert(bytes_lt(rule_of(b.subrange(1236, 1240)), rule_of(b.subrange(1241, 1245)))) by {
        reveal_with_fuel(find_byte, 4);
        reveal_with_fuel(bytes_lt, 2);
    }
    lemma_sorted_cons(b.subrange(1236, 1240), lines_from(b, 1241));
    assert(lines_from(b, 1231) == seq![b.subrange(1231, 1235)] + lines_from(b, 1236)) by {
        reveal_with_fuel(find_byte, 6);
        assert(b[1235] == 10u8);
    }
    assert(bytes_lt(rule_of(b.subrange(1231, 1235)), rule_of(b.subrange(1236, 1240)))) by {
        reveal_with_fuel(find_byte, 4);
        reveal_with_fuel(bytes_lt, 3);
    }
    lemma_sorted_cons(b.subrange(1231, 1235), lines_from(b, 1236));
}

/// Lines 136 to 143 of [`RULES`] are sorted, given that the lines after them are.
proof fn lemma_rules_from_136()
    requires
        sorted_rules(lines_from(RULES.spec_bytes(), 1231)),
        lines_from(RULES.spec_bytes(), 1231).len() > 0,
        lines_from(RULES.spec_bytes(), 1231)[0] == RULES.spec_bytes().subrange(1231, 1235),
        lines_from(RULES.spec_bytes(), 1231).len() == 15,
        lines_from(RULES.spec_bytes(), 1231).last() == RULES.spec_bytes().subrange(1368, 1373),
    ensures
        sorted_rules(lines_from(RULES.spec_bytes(), 1149)),
        lines_from(RULES.spec_bytes(), 1149).len() > 0,
        lines_from(RULES.spec_bytes(), 1149)[0] == RULES.spec_bytes().subrange(1149, 1153),
        lines_from(RULES.spec_bytes(), 1149).len() == 23,
        lines_from(RULES.spec_bytes(), 1149).last() == RULES.spec_bytes().subrange(1368, 1373),
        RULES.spec_bytes().len() == 1373,
{
    reveal_strlit("ac\tI\nac.be\tI\nac.in\tI\nac.jp\tI\nac.kr\tI\nac.nz\tI\nac.uk\tI\nai\tI\nak.us\tI\napp\tI\nappspot.com\tP\nasn.au\tI\nau\tI\nazurewebsites.net\tP\nbc.ca\tI\nbe\tI\nbiz\tI\nblogspot.com\tP\nbr\tI\nca\tI\nch\tI\ncloudfront.net\tP\ncn\tI\nco\tI\nco.in\tI\nco.jp\tI\nco.kr\tI\nco.nz\tI\nco.uk\tI\ncom\tI\ncom.ai\tI\ncom.au\tI\ncom.br\tI\ncom.cn\tI\ncom.co\tI\ncom.es\tI\ncom.hk\tI\ncom.mx\tI\ncom.pl\tI\ncom.sg\tI\ncom.tw\tI\nde\tI\ndev\tI\nedu\tI\nedu.au\tI\nedu.br\tI\nedu.cn\tI\nedu.co\tI\nedu.es\tI\nedu.hk\tI\nedu.in\tI\nedu.mx\tI\nedu.sg\tI\nedu.tw\tI\nes\tI\neu\tI\nfirebaseapp.com\tP\nfirm.in\tI\nfr\tI\ngen.in\tI\ngithub.io\tP\ngitlab.io\tP\ngo.jp\tI\ngo.kr\tI\ngob.es\tI\ngob.mx\tI\ngov\tI\ngov.au\tI\ngov.br\tI\ngov.cn\tI\ngov.co\tI\ngov.hk\tI\ngov.in\tI\ngov.sg\tI\ngov.tw\tI\ngov.uk\tI\ngovt.nz\tI\nherokuapp.com\tP\nhk\tI\nid.au\tI\nide.kyoto.jp\tI\nin\tI\nind.in\tI\ninfo\tI\nio\tI\nit\tI\njp\tI\nk12.ak.us\tI\nkr\tI\nkyoto.jp\tI\nltd.uk\tI\nly\tI\nme\tI\nme.uk\tI\nmx\tI\nne.jp\tI\nne.kr\tI\nnet\tI\nnet.ai\tI\nnet.au\tI\nnet.br\tI\nnet.cn\tI\nnet.co\tI\nnet.hk\tI\nnet.in\tI\nnet.mx\tI\nnet.nz\tI\nnet.pl\tI\nnet.sg\tI\nnet.tw\tI\nnet.uk\tI\nnetlify.app\tP\nnhs.uk\tI\nnl\tI\nno\tI\nnom.es\tI\nnz\tI\non.ca\tI\nor.jp\tI\nor.kr\tI\norg\tI\norg.ai\tI\norg.au\tI\norg.br\tI\norg.cn\tI\norg.co\tI\norg.es\tI\norg.hk\tI\norg.in\tI\norg.mx\tI\norg.nz\tI\norg.pl\tI\norg.sg\tI\norg.tw\tI\norg.uk\tI\npages.dev\tP\npl\tI\nplc.uk\tI\npolice.uk\tI\nqc.ca\tI\nre.kr\tI\nres.in\tI\ns3.amazonaws.com\tP\nschool.nz\tI\nse\tI\nsg\tI\ntv\tI\ntw\tI\nuk\tI\nuk.com\tP\nus\tI\nvercel.app\tP\nweb.app\tP\nworkers.dev\tP\nxn--55qx5d.cn\tI\nxn--fiqs8s\tI\nxn--io0a7i.cn\tI\nxn--od0alg.cn\tI\nxyz\tI");
    broadcast use vstd::string::is_ascii_spec_bytes;
    let b = RULES.spec_bytes();
    assert(vstd::string::is_ascii(RULES));
    assert(lines_from(b, 1219) == seq![b.subrange(1219, 1230)] + lines_from(b, 1231)) by {
        reveal_with_fuel(find_byte, 13);
        assert(b[1230] == 10u8);
    }
    assert(bytes_lt(rule_of(b.subrange(1219, 1230)), rule_of(b.subrange(1231, 1235)))) by {
        reveal_with_fuel(find_byte, 11);
        reveal_with_fuel(bytes_lt, 3);
    }
    lemma_sorted_cons(b.subrange(1219, 1230), lines_from(b, 1231));
    assert(lines_from(b, 1200) == seq![b.subrange(1200, 1218)] + lines_from(b, 1219)) by {
        reveal_with_fuel(find_byte, 20);
        assert(b[1218] == 10u8);
    }
    assert(bytes_lt(rule_of(b.subrange(1200, 1218)), rule_of(b.subrange(1219, 1230)))) by {
        reveal_with_fuel(find_byte, 18);
        reveal_with_fuel(bytes_lt, 3);
    }
    lemma_sorted_cons(b.subrange(1200, 1218), lines_from(b, 1219));
    assert(lines_from(b, 1191) == seq![b.subrange(1191, 1199)] + lines_from(b, 1200)) by {
        reveal_with_fuel(find_byte, 10);
        assert(b[1199] == 10u8);
    }
    assert(bytes_lt(rule_of(b.subrange(1191, 1199)), rule_of(b.subrange(1200, 1218)))) by {
        reveal_with_fuel(find_byte, 18);
        reveal_with_fuel(bytes_lt, 2);
    }
    lemma_sorted_cons(b.subrange(1191, 1199), lines_from(b, 1200));
    assert(lines_from(b, 1183) == seq![b.subrange(1183, 1190)] + lines_from(b, 1191)) by {
        reveal_with_fuel(find_byte, 9);
        assert(b[1190] == 10u8);
    }
    assert(bytes_lt(rule_of(b.subrange(1183, 1190)), rule_of(b.subrange(1191, 1199)))) by {
        reveal_with_fuel(find_byte, 8);
        reveal_with_fuel(bytes_lt, 4);
    }
    lemma_sorted_cons(b.subrange(1183, 1190), lines_from(b, 1191));
    assert(lines_from(b, 1175) == seq![b.subrange(1175, 1182)] + lines_from(b, 1183)) by {
        reveal_with_fuel(find_byte, 9);
        assert(b[1182] == 10u8);
    }
    assert(bytes_lt(rule_of(b.subrange(1175, 1182)), rule_of(b.subrange(1183, 1190)))) by {
        reveal_with_fuel(find_byte, 7);
        reveal_with_fuel(bytes_lt, 2);
    }
    lemma_sorted_cons(b.subrange(1175, 1182), lines_from(b, 1183));
    assert(lines_from(b, 1163) == seq![b.subrange(1163, 1174)] + lines_from(b, 1175)) by {
        reveal_with_fuel(find_byte, 13);
        assert(b[1174] == 10u8);
    }
    assert(bytes_lt(rule_of(b.subrange(1163, 1174)), rule_of(b.subrange(1175, 1182)))) by {
        reveal_with_fuel(find_byte, 11);
        reveal_with_fuel(bytes_lt, 2);
    }
    lemma_sorted_cons(b.subrange(1163, 1174), lines_from(b, 1175));
    assert(lines_from(b, 1154) == seq![b.subrange(1154, 1162)] + lines_from(b, 1163)) by {
        reveal_with_fuel(find_byte, 10);
        assert(b[1162] == 10u8);
    }
    assert(bytes_lt(rule_of(b.subrange(1154, 1162)), rule_of(b.subrange(1163, 1174)))) by {
        reveal_with_fuel(find_byte, 11);
        reveal_with_fuel(bytes_lt, 3);
    }
    lemma_sorted_cons(b.subrange(1154, 1162), lines_from(b, 1163));
    assert(lines_from(b, 1149) == seq![b.subrange(1149, 1153)] + lines_from(b, 1154)) by {
        reveal_with_fuel(find_byte, 6);
        assert(b[1153] == 10u8);
    }
    assert(bytes_lt(rule_of(b.subrange(1149, 1153)), rule_of(b.subrange(1154, 1162)))) by {
        reveal_with_fuel(find_byte, 8);
        reveal_with_fuel(bytes_lt, 4);
    }
    lemma_sorted_cons(b.subrange(1149, 1153), lines_from(b, 1154));
}

/// Lines 128 to 135 of [`RULES`] are sorted, given that the lines after them are.
proof fn lemma_rules_from_128()
    requires
        sorted_rules(lines_from(RULES.spec_bytes(), 1149)),
        lines_from(RULES.spec_bytes(), 1149).len() > 0,
        lines_from(RULES.spec_bytes(), 1149)[0] == RULES.spec_bytes().subrange(1149, 1153),
        lines_from(RULES.spec_bytes(), 1149).len() == 23,
        lines_from(RULES.spec_bytes(), 1149).last() == RULES.spec_bytes().subrange(1368, 1373),
    ensures
        sorted_rules(lines_from(RULES.spec_bytes(), 1074)),
        lines_from(RULES.spec_bytes(), 1074).len() > 0,
        lines_from(RULES.spec_bytes(), 1074)[0] == RULES.spec_bytes().subrange(1074, 1082),
        lines_from(RULES.spec_bytes(), 1074).len() == 31,
        lines_from(RULES.spec_bytes(), 1074).last() == RULES.spec_bytes().subrange(1368, 1373),
        RULES.spec_bytes().len() == 1373,
{
    reveal_strlit("ac\tI\nac.be\tI\nac.in\tI\nac.jp\tI\nac.kr\tI\nac.nz\tI\nac.uk\tI\nai\tI\nak.us\tI\napp\tI\nappspot.com\tP\nasn.au\tI\nau\tI\nazurewebsites.net\tP\nbc.ca\tI\nbe\tI\nbiz\tI\nblogspot.com\tP\nbr\tI\nca\tI\nch\tI\ncloudfront.net\tP\ncn\tI\nco\tI\nco.in\tI\nco.jp\tI\nco.kr\tI\nco.nz\tI\nco.uk\tI\ncom\tI\ncom.ai\tI\ncom.au\tI\ncom.br\tI\ncom.cn\tI\ncom.co\tI\ncom.es\tI\ncom.hk\tI\ncom.mx\tI\ncom.pl\tI\ncom.sg\tI\ncom.tw\tI\nde\tI\ndev\tI\nedu\tI\nedu.au\tI\nedu.br\tI\nedu.cn\tI\nedu.co\tI\nedu.es\tI\nedu.hk\tI\nedu.in\tI\nedu.mx\tI\nedu.sg\tI\nedu.tw\tI\nes\tI\neu\tI\nfirebaseapp.com\tP\nfirm.in\tI\nfr\tI\ngen.in\tI\ngithub.io\tP\ngitlab.io\tP\ngo.jp\tI\ngo.kr\tI\ngob.es\tI\ngob.mx\tI\ngov\tI\ngov.au\tI\ngov.br\tI\ngov.cn\tI\ngov.co\tI\ngov.hk\tI\ngov.in\tI\ngov.sg\tI\ngov.tw\tI\ngov.uk\tI\ngovt.nz\tI\nherokuapp.com\tP\nhk\tI\nid.au\tI\nide.kyoto.jp\tI\nin\tI\nind.in\tI\ninfo\tI\nio\tI\nit\tI\njp\tI\nk12.ak.us\tI\nkr\tI\nkyoto.jp\tI\nltd.uk\tI\nly\tI\nme\tI\nme.uk\tI\nmx\tI\nne.jp\tI\nne.kr\tI\nnet\tI\nnet.ai\tI\nnet.au\tI\nnet.br\tI\nnet.cn\tI\nnet.co\tI\nnet.hk\tI\nnet.in\tI\nnet.mx\tI\nnet.nz\tI\nnet.pl\tI\nnet.sg\tI\nnet.tw\tI\nnet.uk\tI\nnetlify.app\tP\nnhs.uk\tI\nnl\tI\nno\tI\nnom.es\tI\nnz\tI\non.ca\tI\nor.jp\tI\nor.kr\tI\norg\tI\norg.ai\tI\norg.au\tI\norg.br\tI\norg.cn\tI\norg.co\tI\norg.es\tI\norg.hk\tI\norg.in\tI\norg.mx\tI\norg.nz\tI\norg.pl\tI\norg.sg\tI\norg.tw\tI\norg.uk\tI\npages.dev\tP\npl\tI\nplc.uk\tI\npolice.uk\tI\nqc.ca\tI\nre.kr\tI\nres.in\tI\ns3.amazonaws.com\tP\nschool.nz\tI\nse\tI\nsg\tI\ntv\tI\ntw\tI\nuk\tI\nuk.com\tP\nus\tI\nvercel.app\tP\nweb.app\tP\nworkers.dev\tP\nxn--55qx5d.cn\tI\nxn--fiqs8s\tI\nxn--io0a7i.cn\tI\nxn--od0alg.cn\tI\nxyz\tI");
    broadcast use vstd::string::is_ascii_spec_bytes;
    let b = RULES.spec_bytes();
    assert(vstd::string::is_ascii(RULES));
    assert(lines_from(b, 1137) == seq![b.subrange(1137, 1148)] + lines_from(b, 1149)) by {
        reveal_with_fuel(find_byte, 13);
        assert(b[1148] == 10u8);
    }
    assert(bytes_lt(rule_of(b.subrange(1137, 1148)), rule_of(b.subrange(1149, 1153)))) by {
        reveal_with_fuel(find_byte, 11);
        reveal_with_fuel(bytes_lt, 3);
    }
    lemma_sorted_cons(b.subrange(1137, 1148), lines_from(b, 1149));
    assert(lines_from(b, 1128) == seq![b.subrange(1128, 1136)] + lines_from(b, 1137)) by {
        reveal_with_fuel(find_byte, 10);
        assert(b[1136] == 10u8);
    }
    assert(bytes_lt(rule_of(b.subrange(1128, 1136)), rule_of(b.subrange(1137, 1148)))) by {
        reveal_with_fuel(find_byte, 11);
        reveal_with_fuel(bytes_lt, 2);
    }
    lemma_sorted_cons(b.subrange(1128, 1136), lines_from(b, 1137));
    assert(lines_from(b, 1119) == seq![b.subrange(1119, 1127)] + lines_from(b, 1128)) by {
        reveal_with_fuel(find_byte, 10);
        assert(b[1127] == 10u8);
    }
    assert(bytes_lt(rule_of(b.subrange(1119, 1127)), rule_of(b.subrange(1128, 1136)))) by {
        reveal_with_fuel(find_byte, 8);
        reveal_with_fuel(bytes_lt, 6);
    }
    lemma_sorted_cons(b.subrange(1119, 1127), lines_from(b, 1128));
    assert(lines_from(b, 1110) == seq![b.subrange(1110, 1118)] + lines_from(b, 1119)) by {
        reveal_with_fuel(find_byte, 10);
        assert(b[1118] == 10u8);
    }
    assert(bytes_lt(rule_of(b.subrange(1110, 1118)), rule_of(b.subrange(1119, 1127)))) by {
        reveal_with_fuel(find_byte, 8);
        reveal_with_fuel(bytes_lt, 6);
    }
    lemma_sorted_cons(b.subrange(1110, 1118), lines_from(b, 1119));
    assert(lines_from(b, 1101) == seq![b.subrange(1101, 1109)] + lines_from(b, 1110)) by {
        reveal_with_fuel(find_byte, 10);
        assert(b[1109] == 10u8);
    }
    assert(bytes_lt(rule_of(b.subrange(1101, 1109)), rule_of(b.subrange(1110, 1118)))) by {
        reveal_with_fuel(find_byte, 8);
        reveal_with_fuel(bytes_lt, 6);
    }
    lemma_sorted_cons(b.subrange(1101, 1109), lines_from(b, 1110));
    assert(lines_from(b, 1092) == seq![b.subrange(1092, 1100)] + lines_from(b, 1101)) by {
        reveal_with_fuel(find_byte, 10);
        assert(b[1100] == 10u8);
    }
    assert(bytes_lt(rule_of(b.subrange(1092, 1100)), rule_of(b.subrange(1101, 1109)))) by {
        reveal_with_fuel(find_byte, 8);
        reveal_with_fuel(bytes_lt, 6);
    }
    lemma_sorted_cons(b.subrange(1092, 1100), lines_from(b, 1101));
    assert(lines_from(b, 1083) == seq![b.subrange(1083, 1091)] + lines_from(b, 1092)) by {
        reveal_with_fuel(find_byte, 10);
        assert(b[1091] == 10u8);
    }
    assert(bytes_lt(rule_of(b.subrange(1083, 1091)), rule_of(b.subrange(1092, 1100)))) by {
        reveal_with_fuel(find_byte, 8);
        reveal_with_fuel(bytes_lt, 6);
    }
    lemma_sorted_cons(b.subrange(1083, 1091), lines_from(b, 1092));
    assert(lines_from(b, 1074) == seq![b.subrange(1074, 1082)] + lines_from(b, 1083)) by {
        reveal_with_fuel(find_byte, 10);
        assert(b[1082] == 10u8);
    }
    assert(bytes_lt(rule_of(b.subrange(1074, 1082)), rule_of(b.subrange(1083, 1091)))) by {
        reveal_with_fuel(find_byte, 8);
        reveal_with_fuel(bytes_lt, 6);
    }
    lemma_sorted_cons(b.subrange(1074, 1082), lines_from(b, 1083));
}

/// Lines 120 to 127 of [`RULES`] are sorted, given that the lines after them are.
proof fn lemma_rules_from_120()
    requires
        sorted_rules(lines_from(RULES.spec_bytes(), 1074)),
        lines_from(RULES.spec_bytes(), 1074).len() > 0,
        lines_from(RULES.spec_bytes(), 1074)[0] == RULES.spec_bytes().subrange(1074, 1082),
        lines_from(RULES.spec_bytes(), 1074).len() == 31,
        lines_from(RULES.spec_bytes(), 1074).last() == RULES.spec_bytes().subrange(1368, 1373),
    ensures
        sorted_rules(lines_from(RULES.spec_bytes(), 1005)),
        lines_from(RULES.spec_bytes(), 1005).len() > 0,
        lines_from(RULES.spec_bytes(), 1005)[0] == RULES.spec_bytes().subrange(1005, 1010),
        lines_from(RULES.spec_bytes(), 1005).len() == 39,
        lines_from(RULES.spec_bytes(), 1005).last() == RULES.spec_bytes().subrange(1368, 1373),
        RULES.spec_bytes().len() == 1373,
{
    reveal_strlit("ac\tI\nac.be\tI\nac.in\tI\nac.jp\tI\nac.kr\tI\nac.nz\tI\nac.uk\tI\nai\tI\nak.us\tI\napp\tI\nappspot.com\tP\nasn.au\tI\nau\tI\nazurewebsites.net\tP\nbc.ca\tI\nbe\tI\nbiz\tI\nblogspot.com\tP\nbr\tI\nca\tI\nch\tI\ncloudfront.net\tP\ncn\tI\nco\tI\nco.in\tI\nco.jp\tI\nco.kr\tI\nco.nz\tI\nco.uk\tI\ncom\tI\ncom.ai\tI\ncom.au\tI\ncom.br\tI\ncom.cn\tI\ncom.co\tI\ncom.es\tI\ncom.hk\tI\ncom.mx\tI\ncom.pl\tI\ncom.sg\tI\ncom.tw\tI\nde\tI\ndev\tI\nedu\tI\nedu.au\tI\nedu.br\tI\nedu.cn\tI\nedu.co\tI\nedu.es\tI\nedu.hk\tI\nedu.in\tI\nedu.mx\tI\nedu.sg\tI\nedu.tw\tI\nes\tI\neu\tI\nfirebaseapp.com\tP\nfirm.in\tI\nfr\tI\ngen.in\tI\ngithub.io\tP\ngitlab.io\tP\ngo.jp\tI\ngo.kr\tI\ngob.es\tI\ngob.mx\tI\ngov\tI\ngov.au\tI\ngov.br\tI\ngov.cn\tI\ngov.co\tI\ngov.hk\tI\ngov.in\tI\ngov.sg\tI\ngov.tw\tI\ngov.uk\tI\ngovt.nz\tI\nherokuapp.com\tP\nhk\tI\nid.au\tI\nide.kyoto.jp\tI\nin\tI\nind.in\tI\ninfo\tI\nio\tI\nit\tI\njp\tI\nk12.ak.us\tI\nkr\tI\nkyoto.jp\tI\nltd.uk\tI\nly\tI\nme\tI\nme.uk\tI\nmx\tI\nne.jp\tI\nne.kr\tI\nnet\tI\nnet.ai\tI\nnet.au\tI\nnet.br\tI\nnet.cn\tI\nnet.co\tI\nnet.hk\tI\nnet.in\tI\nnet.mx\tI\nnet.nz\tI\nnet.pl\tI\nnet.sg\tI\nnet.tw\tI\nnet.uk\tI\nnetlify.app\tP\nnhs.uk\tI\nnl\tI\nno\tI\nnom.es\tI\nnz\tI\non.ca\tI\nor.jp\tI\nor.kr\tI\norg\tI\norg.ai\tI\norg.au\tI\norg.br\tI\norg.cn\tI\norg.co\tI\norg.es\tI\norg.hk\tI\norg.in\tI\norg.mx\tI\norg.nz\tI\norg.pl\tI\norg.sg\tI\norg.tw\tI\norg.uk\tI\npages.dev\tP\npl\tI\nplc.uk\tI\npolice.uk\tI\nqc.ca\tI\nre.kr\tI\nres.in\tI\ns3.amazonaws.com\tP\nschool.nz\tI\nse\tI\nsg\tI\ntv\tI\ntw\tI\nuk\tI\nuk.com\tP\nus\tI\nvercel.app\tP\nweb.app\tP\nworkers.dev\tP\nxn--55qx5d.cn\tI\nxn--fiqs8s\tI\nxn--io0a7i.cn\tI\nxn--od0alg.cn\tI\nxyz\tI");
    broadcast use vstd::string::is_ascii_spec_bytes;
    let b = RULES.spec_bytes();
    assert(vstd::string::is_ascii(RULES));
    assert(lines_from(b, 1065) == seq![b.subrange(1065, 1073)] + lines_from(b, 1074)) by {
        reveal_with_fuel(find_byte, 10);
        assert(b[1073] == 10u8);
    }
    assert(bytes_lt(rule_of(b.subrange(1065, 1073)), rule_of(b.subrange(1074, 1082)))) by {
        reveal_with_fuel(find_byte, 8);
        reveal_with_fuel(bytes_lt, 6);
    }
    lemma_sorted_cons(b.subrange(1065, 1073), lines_from(b, 1074));
    assert(lines_from(b, 1056) == seq![b.subrange(1056, 1064)] + lines_from(b, 1065)) by {
        reveal_with_fuel(find_byte, 10);
        assert(b[1064] == 10u8);
    }
    assert(bytes_lt(rule_of(b.subrange(1056, 1064)), rule_of(b.subrange(1065, 1073)))) by {
        reveal_with_fuel(find_byte, 8);
        reveal_with_fuel(bytes_lt, 6);
    }
    lemma_sorted_cons(b.subrange(1056, 1064), lines_from(b, 1065));
    assert(lines_from(b, 1047) == seq![b.subrange(1047, 1055)] + lines_from(b, 1056)) by {
        reveal_with_fuel(find_byte, 10);
        assert(b[1055] == 10u8);
    }
    assert(bytes_lt(rule_of(b.subrange(1047, 1055)), rule_of(b.subrange(1056, 1064)))) by {
        reveal_with_fuel(find_byte, 8);
        reveal_with_fuel(bytes_lt, 6);
    }
    lemma_sorted_cons(b.subrange(1047, 1055), lines_from(b, 1056));
    assert(lines_from(b, 1038) == seq![b.subrange(1038, 1046)] + lines_from(b, 1047)) by {
        reveal_with_fuel(find_byte, 10);
        assert(b[1046] == 10u8);
    }
    assert(bytes_lt(rule_of(b.subrange(1038, 1046)), rule_of(b.subrange(1047, 1055)))) by {
        reveal_with_fuel(find_byte, 8);
        reveal_with_fuel(bytes_lt, 7);
    }
    lemma_sorted_cons(b.subrange(1038, 1046), lines_from(b, 1047));
    assert(lines_from(b, 1029) == seq![b.subrange(1029, 1037)] + lines_from(b, 1038)) by {
        reveal_with_fuel(find_byte, 10);
        assert(b[1037] == 10u8);
    }
    assert(bytes_lt(rule_of(b.subrange(1029, 1037)), rule_of(b.subrange(1038, 1046)))) by {
        reveal_with_fuel(find_byte, 8);
        reveal_with_fuel(bytes_lt, 6);
    }
    lemma_sorted_cons(b.subrange(1029, 1037), lines_from(b, 1038));
    assert(lines_from(b, 1020) == seq![b.subrange(1020, 1028)] + lines_from(b, 1029)) by {
        reveal_with_fuel(find_byte, 10);
        assert(b[1028] == 10u8);
    }
    assert(bytes_lt(rule_of(b.subrange(1020, 1028)), rule_of(b.subrange(1029, 1037)))) by {
        reveal_with_fuel(find_byte, 8);
        reveal_with_fuel(bytes_lt, 6);
    }
    lemma_sorted_cons(b.subrange(1020, 1028), lines_from(b, 1029));
    assert(lines_from(b, 1011) == seq![b.subrange(1011, 1019)] + lines_from(b, 1020)) by {
        reveal_with_fuel(find_byte, 10);
        assert(b[1019] == 10u8);
    }
    assert(bytes_lt(rule_of(b.subrange(1011, 1019)), rule_of(b.subrange(1020, 1028)))) by {
        reveal_with_fuel(find_byte, 8);
        reveal_with_fuel(bytes_lt, 7);
    }
    lemma_sorted_cons(b.subrange(1011, 1019), lines_from(b, 1020));
    assert(lines_from(b, 1005) == seq![b.subrange(1005, 1010)] + lines_from(b, 1011)) by {
        reveal_with_fuel(find_byte, 7);
        assert(b[1010] == 10u8);
    }
    assert(bytes_lt(rule_of(b.subrange(1005, 1010)), rule_of(b.subrange(1011, 1019)))) by {
        reveal_with_fuel(find_byte, 8);
        reveal_with_fuel(bytes_lt, 5);
    }
    lemma_sorted_cons(b.subrange(1005, 1010), lines_from(b, 1011));
}

/// Lines 112 to 119 of [`RULES`] are sorted, given that the lines after them are.
proof fn lemma_rules_from_112()
    requires
        sorted_rules(lines_from(RULES.spec_bytes(), 1005)),
        lines_from(RULES.spec_bytes(), 1005).len() > 0,
        lines_from(RULES.spec_bytes(), 1005)[0] == RULES.spec_bytes().subrange(1005, 1010),
        lines_from(RULES.spec_bytes(), 1005).len() == 39,
        lines_from(RULES.spec_bytes(), 1005).last() == RULES.spec_bytes().subrange(1368, 1373),
    ensures
        sorted_rules(lines_from(RULES.spec_bytes(), 948)),
        lines_from(RULES.spec_bytes(), 948).len() > 0,
        lines_from(RULES.spec_bytes(), 948)[0] == RULES.spec_bytes().subrange(948, 956),
        lines_from(RULES.spec_bytes(), 948).len() == 47,
        lines_from(RULES.spec_bytes(), 948).last() == RULES.spec_bytes().subrange(1368, 1373),
        RULES.spec_bytes().len() == 1373,
{
    reveal_strlit("ac\tI\nac.be\tI\nac.in\tI\nac.jp\tI\nac.kr\tI\nac.nz\tI\nac.uk\tI\nai\tI\nak.us\tI\napp\tI\nappspot.com\tP\nasn.au\tI\nau\tI\nazurewebsites.net\tP\nbc.ca\tI\nbe\tI\nbiz\tI\nblogspot.com\tP\nbr\tI\nca\tI\nch\tI\ncloudfront.net\tP\ncn\tI\nco\tI\nco.in\tI\nco.jp\tI\nco.kr\tI\nco.nz\tI\nco.uk\tI\ncom\tI\ncom.ai\tI\ncom.au\tI\ncom.br\tI\ncom.cn\tI\ncom.co\tI\ncom.es\tI\ncom.hk\tI\ncom.mx\tI\ncom.pl\tI\ncom.sg\tI\ncom.tw\tI\nde\tI\ndev\tI\nedu\tI\nedu.au\tI\nedu.br\tI\nedu.cn\tI\nedu.co\tI\nedu.es\tI\nedu.hk\tI\nedu.in\tI\nedu.mx\tI\nedu.sg\tI\nedu.tw\tI\nes\tI\neu\tI\nfirebaseapp.com\tP\nfirm.in\tI\nfr\tI\ngen.in\tI\ngithub.io\tP\ngitlab.io\tP\ngo.jp\tI\ngo.kr\tI\ngob.es\tI\ngob.mx\tI\ngov\tI\ngov.au\tI\ngov.br\tI\ngov.cn\tI\ngov.co\tI\ngov.hk\tI\ngov.in\tI\ngov.sg\tI\ngov.tw\tI\ngov.uk\tI\ngovt.nz\tI\nherokuapp.com\tP\nhk\tI\nid.au\tI\nide.kyoto.jp\tI\nin\tI\nind.in\tI\ninfo\tI\nio\tI\nit\tI\njp\tI\nk12.ak.us\tI\nkr\tI\nkyoto.jp\tI\nltd.uk\tI\nly\tI\nme\tI\nme.uk\tI\nmx\tI\nne.jp\tI\nne.kr\tI\nnet\tI\nnet.ai\tI\nnet.au\tI\nnet.br\tI\nnet.cn\tI\nnet.co\tI\nnet.hk\tI\nnet.in\tI\nnet.mx\tI\nnet.nz\tI\nnet.pl\tI\nnet.sg\tI\nnet.tw\tI\nnet.uk\tI\nnetlify.app\tP\nnhs.uk\tI\nnl\tI\nno\tI\nnom.es\tI\nnz\tI\non.ca\tI\nor.jp\tI\nor.kr\tI\norg\tI\norg.ai\tI\norg.au\tI\norg.br\tI\norg.cn\tI\norg.co\tI\norg.es\tI\norg.hk\tI\norg.in\tI\norg.mx\tI\norg.nz\tI\norg.pl\tI\norg.sg\tI\norg.tw\tI\norg.uk\tI\npages.dev\tP\npl\tI\nplc.uk\tI\npolice.uk\tI\nqc.ca\tI\nre.kr\tI\nres.in\tI\ns3.amazonaws.com\tP\nschool.nz\tI\nse\tI\nsg\tI\ntv\tI\ntw\tI\nuk\tI\nuk.com\tP\nus\tI\nvercel.app\tP\nweb.app\tP\nworkers.dev\tP\nxn--55qx5d.cn\tI\nxn--fiqs8s\tI\nxn--io0a7i.cn\tI\nxn--od0alg.cn\tI\nxyz\tI");
    broadcast use vstd::string::is_ascii_spec_bytes;
    let b = RULES.spec_bytes();
    assert(vstd::string::is_ascii(RULES));
    assert(lines_from(b, 997) == seq![b.subrange(997, 1004)] + lines_from(b, 1005)) by {
        reveal_with_fuel(find_byte, 9);
        assert(b[1004] == 10u8);
    }
    assert(bytes_lt(rule_of(b.subrange(997, 1004)), rule_of(b.subrange(1005, 1010)))) by {
        reveal_with_fuel(find_byte, 7);
        reveal_with_fuel(bytes_lt, 4);
    }
    lemma_sorted_cons(b.subrange(997, 1004), lines_from(b, 1005));
    assert(lines_from(b, 989) == seq![b.subrange(989, 996)] + lines_from(b, 997)) by {
        reveal_with_fuel(find_byte, 9);
        assert(b[996] == 10u8);
    }
    assert(bytes_lt(rule_of(b.subrange(989, 996)), rule_of(b.subrange(997, 1004)))) by {
        reveal_with_fuel(find_byte, 7);
        reveal_with_fuel(bytes_lt, 5);
    }
    lemma_sorted_cons(b.subrange(989, 996), lines_from(b, 997));
    assert(lines_from(b, 981) == seq![b.subrange(981, 988)] + lines_from(b, 989)) by {
        reveal_with_fuel(find_byte, 9);
        assert(b[988] == 10u8);
    }
    assert(bytes_lt(rule_of(b.subrange(981, 988)), rule_of(b.subrange(989, 996)))) by {
        reveal_with_fuel(find_byte, 7);
        reveal_with_fuel(bytes_lt, 3);
    }
    lemma_sorted_cons(b.subrange(981, 988), lines_from(b, 989));
    assert(lines_from(b, 976) == seq![b.subrange(976, 980)] + lines_from(b, 981)) by {
        reveal_with_fuel(find_byte, 6);
        assert(b[980] == 10u8);
    }
    assert(bytes_lt(rule_of(b.subrange(976, 980)), rule_of(b.subrange(981, 988)))) by {
        reveal_with_fuel(find_byte, 7);
        reveal_with_fuel(bytes_lt, 2);
    }
    lemma_sorted_cons(b.subrange(976, 980), lines_from(b, 981));
    assert(lines_from(b, 967) == seq![b.subrange(967, 975)] + lines_from(b, 976)) by {
        reveal_with_fuel(find_byte, 10);
        assert(b[975] == 10u8);
    }
    assert(bytes_lt(rule_of(b.subrange(967, 975)), rule_of(b.subrange(976, 980)))) by {
        reveal_with_fuel(find_byte, 8);
        reveal_with_fuel(bytes_lt, 3);
    }
    lemma_sorted_cons(b.subrange(967, 975), lines_from(b, 976));
    assert(lines_from(b, 962) == seq![b.subrange(962, 966)] + lines_from(b, 967)) by {
        reveal_with_fuel(find_byte, 6);
        assert(b[966] == 10u8);
    }
    assert(bytes_lt(rule_of(b.subrange(962, 966)), rule_of(b.subrange(967, 975)))) by {
        reveal_with_fuel(find_byte, 8);
        reveal_with_fuel(bytes_lt, 4);
    }
    lemma_sorted_cons(b.subrange(962, 966), lines_from(b, 967));
    assert(lines_from(b, 957) == seq![b.subrange(957, 961)] + lines_from(b, 962)) by {
        reveal_with_fuel(find_byte, 6);
        assert(b[961] == 10u8);
    }
    assert(bytes_lt(rule_of(b.subrange(957, 961)), rule_of(b.subrange(962, 966)))) by {
        reveal_with_fuel(find_byte, 4);
        reveal_with_fuel(bytes_lt, 3);
    }
    lemma_sorted_cons(b.subrange(957, 961), lines_from(b, 962));
    assert(lines_from(b, 948) == seq![b.subrange(948, 956)] + lines_from(b, 957)) by {
        reveal_with_fuel(find_byte, 10);
        assert(b[956] == 10u8);
    }
    assert(bytes_lt(rule_of(b.subrange(948, 956)), rule_of(b.subrange(957, 961)))) by {
        reveal_with_fuel(find_byte, 8);
        reveal_with_fuel(bytes_lt, 3);
    }
    lemma_sorted_cons(b.subrange(948, 956), lines_from(b, 957));
}

/// Lines 104 to 111 of [`RULES`] are sorted, given that the lines after them are.
proof fn lemma_rules_from_104()
    requires
        sorted_rules(lines_from(RULES.spec_bytes(), 948)),
        lines_from(RULES.spec_bytes(), 948).len() > 0,
        lines_from(RULES.spec_bytes(), 948)[0] == RULES.spec_bytes().subrange(948, 956),
        lines_from(RULES.spec_bytes(), 948).len() == 47,
        lines_from(RULES.spec_bytes(), 948).last() == RULES.spec_bytes().subrange(1368, 1373),
    ensures
        sorted_rules(lines_from(RULES.spec_bytes(), 871)),
        lines_from(RULES.spec_bytes(), 871).len() > 0,
        lines_from(RULES.spec_bytes(), 871)[0] == RULES.spec_bytes().subrange(871, 879),
        lines_from(RULES.spec_bytes(), 871).len() == 55,
        lines_from(RULES.spec_bytes(), 871).last() == RULES.spec_bytes().subrange(1368, 1373),
        RULES.spec_bytes().len() == 1373,
{
    reveal_strlit("ac\tI\nac.be\tI\nac.in\tI\nac.jp\tI\nac.kr\tI\nac.nz\tI\nac.uk\tI\nai\tI\nak.us\tI\napp\tI\nappspot.com\tP\nasn.au\tI\nau\tI\nazurewebsites.net\tP\nbc.ca\tI\nbe\tI\nbiz\tI\nblogspot.com\tP\nbr\tI\nca\tI\nch\tI\ncloudfront.net\tP\ncn\tI\nco\tI\nco.in\tI\nco.jp\tI\nco.kr\tI\nco.nz\tI\nco.uk\tI\ncom\tI\ncom.ai\tI\ncom.au\tI\ncom.br\tI\ncom.cn\tI\ncom.co\tI\ncom.es\tI\ncom.hk\tI\ncom.mx\tI\ncom.pl\tI\ncom.sg\tI\ncom.tw\tI\nde\tI\ndev\tI\nedu\tI\nedu.au\tI\nedu.br\tI\nedu.cn\tI\nedu.co\tI\nedu.es\tI\nedu.hk\tI\nedu.in\tI\nedu.mx\tI\nedu.sg\tI\nedu.tw\tI\nes\tI\neu\tI\nfirebaseapp.com\tP\nfirm.in\tI\nfr\tI\ngen.in\tI\ngithub.io\tP\ngitlab.io\tP\ngo.jp\tI\ngo.kr\tI\ngob.es\tI\ngob.mx\tI\ngov\tI\ngov.au\tI\ngov.br\tI\ngov.cn\tI\ngov.co\tI\ngov.hk\tI\ngov.in\tI\ngov.sg\tI\ngov.tw\tI\ngov.uk\tI\ngovt.nz\tI\nherokuapp.com\tP\nhk\tI\nid.au\tI\nide.kyoto.jp\tI\nin\tI\nind.in\tI\ninfo\tI\nio\tI\nit\tI\njp\tI\nk12.ak.us\tI\nkr\tI\nkyoto.jp\tI\nltd.uk\tI\nly\tI\nme\tI\nme.uk\tI\nmx\tI\nne.jp\tI\nne.kr\tI\nnet\tI\nnet.ai\tI\nnet.au\tI\nnet.br\tI\nnet.cn\tI\nnet.co\tI\nnet.hk\tI\nnet.in\tI\nnet.mx\tI\nnet.nz\tI\nnet.pl\tI\nnet.sg\tI\nnet.tw\tI\nnet.uk\tI\nnetlify.app\tP\nnhs.uk\tI\nnl\tI\nno\tI\nnom.es\tI\nnz\tI\non.ca\tI\nor.jp\tI\nor.kr\tI\norg\tI\norg.ai\tI\norg.au\tI\norg.br\tI\norg.cn\tI\norg.co\tI\norg.es\tI\norg.hk\tI\norg.in\tI\norg.mx\tI\norg.nz\tI\norg.pl\tI\norg.sg\tI\norg.tw\tI\norg.uk\tI\npages.dev\tP\npl\tI\nplc.uk\tI\npolice.uk\tI\nqc.ca\tI\nre.kr\tI\nres.in\tI\ns3.amazonaws.com\tP\nschool.nz\tI\nse\tI\nsg\tI\ntv\tI\ntw\tI\nuk\tI\nuk.com\tP\nus\tI\nvercel.app\tP\nweb.app\tP\nworkers.dev\tP\nxn--55qx5d.cn\tI\nxn--fiqs8s\tI\nxn--io0a7i.cn\tI\nxn--od0alg.cn\tI\nxyz\tI");
    broadcast use vstd::string::is_ascii_spec_bytes;
    let b = RULES.spec_bytes();
    assert(vstd::string::is_ascii(RULES));
    assert(lines_from(b, 934) == seq![b.subrange(934, 947)] + lines_from(b, 948)) by {
        reveal_with_fuel(find_byte, 15);
        assert(b[947] == 10u8);
    }
    assert(bytes_lt(rule_of(b.subrange(934, 947)), rule_of(b.subrange(948, 956)))) by {
        reveal_with_fuel(find_byte, 13);
        reveal_with_fuel(bytes_lt, 3);
    }
    lemma_sorted_cons(b.subrange(934, 947), lines_from(b, 948));
    assert(lines_from(b, 925) == seq![b.subrange(925, 933)] + lines_from(b, 934)) by {
        reveal_with_fuel(find_byte, 10);
        assert(b[933] == 10u8);
    }
    assert(bytes_lt(rule_of(b.subrange(925, 933)), rule_of(b.subrange(934, 947)))) by {
        reveal_with_fuel(find_byte, 13);
        reveal_with_fuel(bytes_lt, 5);
    }
    lemma_sorted_cons(b.subrange(925, 933), lines_from(b, 934));
    assert(lines_from(b, 916) == seq![b.subrange(916, 924)] + lines_from(b, 925)) by {
        reveal_with_fuel(find_byte, 10);
        assert(b[924] == 10u8);
    }
    assert(bytes_lt(rule_of(b.subrange(916, 924)), rule_of(b.subrange(925, 933)))) by {
        reveal_with_fuel(find_byte, 8);
        reveal_with_fuel(bytes_lt, 6);
    }
    lemma_sorted_cons(b.subrange(916, 924), lines_from(b, 925));
    assert(lines_from(b, 907) == seq![b.subrange(907, 915)] + lines_from(b, 916)) by {
        reveal_with_fuel(find_byte, 10);
        assert(b[915] == 10u8);
    }
    assert(bytes_lt(rule_of(b.subrange(907, 915)), rule_of(b.subrange(916, 924)))) by {
        reveal_with_fuel(find_byte, 8);
        reveal_with_fuel(bytes_lt, 6);
    }
    lemma_sorted_cons(b.subrange(907, 915), lines_from(b, 916));
    assert(lines_from(b, 898) == seq![b.subrange(898, 906)] + lines_from(b, 907)) by {
        reveal_with_fuel(find_byte, 10);
        assert(b[906] == 10u8);
    }
    assert(bytes_lt(rule_of(b.subrange(898, 906)), rule_of(b.subrange(907, 915)))) by {
        reveal_with_fuel(find_byte, 8);
        reveal_with_fuel(bytes_lt, 6);
    }
    lemma_sorted_cons(b.subrange(898, 906), lines_from(b, 907));
    assert(lines_from(b, 889) == seq![b.subrange(889, 897)] + lines_from(b, 898)) by {
        reveal_with_fuel(find_byte, 10);
        assert(b[897] == 10u8);
    }
    assert(bytes_lt(rule_of(b.subrange(889, 897)), rule_of(b.subrange(898, 906)))) by {
        reveal_with_fuel(find_byte, 8);
        reveal_with_fuel(bytes_lt, 6);
    }
    lemma_sorted_cons(b.subrange(889, 897), lines_from(b, 898));
    assert(lines_from(b, 880) == seq![b.subrange(880, 888)] + lines_from(b, 889)) by {
        reveal_with_fuel(find_byte, 10);
        assert(b[888] == 10u8);
    }
    assert(bytes_lt(rule_of(b.subrange(880, 888)), rule_of(b.subrange(889, 897)))) by {
        reveal_with_fuel(find_byte, 8);
        reveal_with_fuel(bytes_lt, 6);
    }
    lemma_sorted_cons(b.subrange(880, 888), lines_from(b, 889));
    assert(lines_from(b, 871) == seq![b.subrange(871, 879)] + lines_from(b, 880)) by {
        reveal_with_fuel(find_byte, 10);
        assert(b[879] == 10u8);
    }
    assert(bytes_lt(rule_of(b.subrange(871, 879)), rule_of(b.subrange(880, 888)))) by {
        reveal_with_fuel(find_byte, 8);
        reveal_with_fuel(bytes_lt, 6);
    }
    lemma_sorted_cons(b.subrange(871, 879), lines_from(b, 880));
}

/// Lines 96 to 103 of [`RULES`] are sorted, given that the lines after them are.
proof fn lemma_rules_from_96()
    requires
        sorted_rules(lines_from(RULES.spec_bytes(), 871)),
        lines_from(RULES.spec_bytes(), 871).len() > 0,
        lines_from(RULES.spec_bytes(), 871)[0] == RULES.spec_bytes().subrange(871, 879),
        lines_from(RULES.spec_bytes(), 871).len() == 55,
        lines_from(RULES.spec_bytes(), 871).last() == RULES.spec_bytes().subrange(1368, 1373),
    ensures
        sorted_rules(lines_from(RULES.spec_bytes(), 803)),
        lines_from(RULES.spec_bytes(), 803).len() > 0,
        lines_from(RULES.spec_bytes(), 803)[0] == RULES.spec_bytes().subrange(803, 810),
        lines_from(RULES.spec_bytes(), 803).len() == 63,
        lines_from(RULES.spec_bytes(), 803).last() == RULES.spec_bytes().subrange(1368, 1373),
        RULES.spec_bytes().len() == 1373,
{
    reveal_strlit("ac\tI\nac.be\tI\nac.in\tI\nac.jp\tI\nac.kr\tI\nac.nz\tI\nac.uk\tI\nai\tI\nak.us\tI\napp\tI\nappspot.com\tP\nasn.au\tI\nau\tI\nazurewebsites.net\tP\nbc.ca\tI\nbe\tI\nbiz\tI\nblogspot.com\tP\nbr\tI\nca\tI\nch\tI\ncloudfront.net\tP\ncn\tI\nco\tI\nco.in\tI\nco.jp\tI\nco.kr\tI\nco.nz\tI\nco.uk\tI\ncom\tI\ncom.ai\tI\ncom.au\tI\ncom.br\tI\ncom.cn\tI\ncom.co\tI\ncom.es\tI\ncom.hk\tI\ncom.mx\tI\ncom.pl\tI\ncom.sg\tI\ncom.tw\tI\nde\tI\ndev\tI\nedu\tI\nedu.au\tI\nedu.br\tI\nedu.cn\tI\nedu.co\tI\nedu.es\tI\nedu.hk\tI\nedu.in\tI\nedu.mx\tI\nedu.sg\tI\nedu.tw\tI\nes\tI\neu\tI\nfirebaseapp.com\tP\nfirm.in\tI\nfr\tI\ngen.in\tI\ngithub.io\tP\ngitlab.io\tP\ngo.jp\tI\ngo.kr\tI\ngob.es\tI\ngob.mx\tI\ngov\tI\ngov.au\tI\ngov.br\tI\ngov.cn\tI\ngov.co\tI\ngov.hk\tI\ngov.in\tI\ngov.sg\tI\ngov.tw\tI\ngov.uk\tI\ngovt.nz\tI\nherokuapp.com\tP\nhk\tI\nid.au\tI\nide.kyoto.jp\tI\nin\tI\nind.in\tI\ninfo\tI\nio\tI\nit\tI\njp\tI\nk12.ak.us\tI\nkr\tI\nkyoto.jp\tI\nltd.uk\tI\nly\tI\nme\tI\nme.uk\tI\nmx\tI\nne.jp\tI\nne.kr\tI\nnet\tI\nnet.ai\tI\nnet.au\tI\nnet.br\tI\nnet.cn\tI\nnet.co\tI\nnet.hk\tI\nnet.in\tI\nnet.mx\tI\nnet.nz\tI\nnet.pl\tI\nnet.sg\tI\nnet.tw\tI\nnet.uk\tI\nnetlify.app\tP\nnhs.uk\tI\nnl\tI\nno\tI\nnom.es\tI\nnz\tI\non.ca\tI\nor.jp\tI\nor.kr\tI\norg\tI\norg.ai\tI\norg.au\tI\norg.br\tI\norg.cn\tI\norg.co\tI\norg.es\tI\norg.hk\tI\norg.in\tI\norg.mx\tI\norg.nz\tI\norg.pl\tI\norg.sg\tI\norg.tw\tI\norg.uk\tI\npages.dev\tP\npl\tI\nplc.uk\tI\npolice.uk\tI\nqc.ca\tI\nre.kr\tI\nres.in\tI\ns3.amazonaws.com\tP\nschool.nz\tI\nse\tI\nsg\tI\ntv\tI\ntw\tI\nuk\tI\nuk.com\tP\nus\tI\nvercel.app\tP\nweb.app\tP\nworkers.dev\tP\nxn--55qx5d.cn\tI\nxn--fiqs8s\tI\nxn--io0a7i.cn\tI\nxn--od0alg.cn\tI\nxyz\tI");
    broadcast use vstd::string::is_ascii_spec_bytes;
    let b = RULES.spec_bytes();
    assert(vstd::string::is_ascii(RULES));
    assert(lines_from(b, 862) == seq![b.subrange(862, 870)] + lines_from(b, 871)) by {
        reveal_with_fuel(find_byte, 10);
        assert(b[870] == 10u8);
    }
    assert(bytes_lt(rule_of(b.subrange(862, 870)), rule_of(b.subrange(871, 879)))) by {
        reveal_with_fuel(find_byte, 8);
        reveal_with_fuel(bytes_lt, 6);
    }
    lemma_sorted_cons(b.subrange(862, 870), lines_from(b, 871));
    assert(lines_from(b, 853) == seq![b.subrange(853, 861)] + lines_from(b, 862)) by {
        reveal_with_fuel(find_byte, 10);
        assert(b[861] == 10u8);
    }
    assert(bytes_lt(rule_of(b.subrange(853, 861)), rule_of(b.subrange(862, 870)))) by {
        reveal_with_fuel(find_byte, 8);
        reveal_with_fuel(bytes_lt, 6);
    }
    lemma_sorted_cons(b.subrange(853, 861), lines_from(b, 862));
    assert(lines_from(b, 844) == seq![b.subrange(844, 852)] + lines_from(b, 853)) by {
        reveal_with_fuel(find_byte, 10);
        assert(b[852] == 10u8);
    }
    assert(bytes_lt(rule_of(b.subrange(844, 852)), rule_of(b.subrange(853, 861)))) by {
        reveal_with_fuel(find_byte, 8);
        reveal_with_fuel(bytes_lt, 7);
    }
    lemma_sorted_cons(b.subrange(844, 852), lines_from(b, 853));
    assert(lines_from(b, 835) == seq![b.subrange(835, 843)] + lines_from(b, 844)) by {
        reveal_with_fuel(find_byte, 10);
        assert(b[843] == 10u8);
    }
    assert(bytes_lt(rule_of(b.subrange(835, 843)), rule_of(b.subrange(844, 852)))) by {
        reveal_with_fuel(find_byte, 8);
        reveal_with_fuel(bytes_lt, 6);
    }
    lemma_sorted_cons(b.subrange(835, 843), lines_from(b, 844));
    assert(lines_from(b, 826) == seq![b.subrange(826, 834)] + lines_from(b, 835)) by {
        reveal_with_fuel(find_byte, 10);
        assert(b[834] == 10u8);
    }
    assert(bytes_lt(rule_of(b.subrange(826, 834)), rule_of(b.subrange(835, 843)))) by {
        reveal_with_fuel(find_byte, 8);
        reveal_with_fuel(bytes_lt, 6);
    }
    lemma_sorted_cons(b.subrange(826, 834), lines_from(b, 835));
    assert(lines_from(b, 817) == seq![b.subrange(817, 825)] + lines_from(b, 826)) by {
        reveal_with_fuel(find_byte, 10);
        assert(b[825] == 10u8);
    }
    assert(bytes_lt(rule_of(b.subrange(817, 825)), rule_of(b.subrange(826, 834)))) by {
        reveal_with_fuel(find_byte, 8);
        reveal_with_fuel(bytes_lt, 7);
    }
    lemma_sorted_cons(b.subrange(817, 825), lines_from(b, 826));
    assert(lines_from(b, 811) == seq![b.subrange(811, 816)] + lines_from(b, 817)) by {
        reveal_with_fuel(find_byte, 7);
        assert(b[816] == 10u8);
    }
    assert(bytes_lt(rule_of(b.subrange(811, 816)), rule_of(b.subrange(817, 825)))) by {
        reveal_with_fuel(find_byte, 8);
        reveal_with_fuel(bytes_lt, 5);
    }
    lemma_sorted_cons(b.subrange(811, 816), lines_from(b, 817));
    assert(lines_from(b, 803) == seq![b.subrange(803, 810)] + lines_from(b, 811)) by {
        reveal_with_fuel(find_byte, 9);
        assert(b[810] == 10u8);
    }
    assert(bytes_lt(rule_of(b.subrange(803, 810)), rule_of(b.subrange(811, 816)))) by {
        reveal_with_fuel(find_byte, 7);
        reveal_with_fuel(bytes_lt, 4);
    }
    lemma_sorted_cons(b.subrange(803, 810), lines_from(b, 811));
}

/// Lines 88 to 95 of [`RULES`] are sorted, given that the lines after them are.
proof fn lemma_rules_from_88()
    requires
        sorted_rules(lines_from(RULES.spec_bytes(), 803)),
        lines_from(RULES.spec_bytes(), 803).len() > 0,
        lines_from(RULES.spec_bytes(), 803)[0] == RULES.spec_bytes().subrange(803, 810),
        lines_from(RULES.spec_bytes(), 803).len() == 63,
        lines_from(RULES.spec_bytes(), 803).last() == RULES.spec_bytes().subrange(1368, 1373),
    ensures
        sorted_rules(lines_from(RULES.spec_bytes(), 747)),
        lines_from(RULES.spec_bytes(), 747).len() > 0,
        lines_from(RULES.spec_bytes(), 747)[0] == RULES.spec_bytes().subrange(747, 751),
        lines_from(RULES.spec_bytes(), 747).len() == 71,
        lines_from(RULES.spec_bytes(), 747).last() == RULES.spec_bytes().subrange(1368, 1373),
        RULES.spec_bytes().len() == 1373,
{
    reveal_strlit("ac\tI\nac.be\tI\nac.in\tI\nac.jp\tI\nac.kr\tI\nac.nz\tI\nac.uk\tI\nai\tI\nak.us\tI\napp\tI\nappspot.com\tP\nasn.au\tI\nau\tI\nazurewebsites.net\tP\nbc.ca\tI\nbe\tI\nbiz\tI\nblogspot.com\tP\nbr\tI\nca\tI\nch\tI\ncloudfront.net\tP\ncn\tI\nco\tI\nco.in\tI\nco.jp\tI\nco.kr\tI\nco.nz\tI\nco.uk\tI\ncom\tI\ncom.ai\tI\ncom.au\tI\ncom.br\tI\ncom.cn\tI\ncom.co\tI\ncom.es\tI\ncom.hk\tI\ncom.mx\tI\ncom.pl\tI\ncom.sg\tI\ncom.tw\tI\nde\tI\ndev\tI\nedu\tI\nedu.au\tI\nedu.br\tI\nedu.cn\tI\nedu.co\tI\nedu.es\tI\nedu.hk\tI\nedu.in\tI\nedu.mx\tI\nedu.sg\tI\nedu.tw\tI\nes\tI\neu\tI\nfirebaseapp.com\tP\nfirm.in\tI\nfr\tI\ngen.in\tI\ngithub.io\tP\ngitlab.io\tP\ngo.jp\tI\ngo.kr\tI\ngob.es\tI\ngob.mx\tI\ngov\tI\ngov.au\tI\ngov.br\tI\ngov.cn\tI\ngov.co\tI\ngov.hk\tI\ngov.in\tI\ngov.sg\tI\ngov.tw\tI\ngov.uk\tI\ngovt.nz\tI\nherokuapp.com\tP\nhk\tI\nid.au\tI\nide.kyoto.jp\tI\nin\tI\nind.in\tI\ninfo\tI\nio\tI\nit\tI\njp\tI\nk12.ak.us\tI\nkr\tI\nkyoto.jp\tI\nltd.uk\tI\nly\tI\nme\tI\nme.uk\tI\nmx\tI\nne.jp\tI\nne.kr\tI\nnet\tI\nnet.ai\tI\nnet.au\tI\nnet.br\tI\nnet.cn\tI\nnet.co\tI\nnet.hk\tI\nnet.in\tI\nnet.mx\tI\nnet.nz\tI\nnet.pl\tI\nnet.sg\tI\nnet.tw\tI\nnet.uk\tI\nnetlify.app\tP\nnhs.uk\tI\nnl\tI\nno\tI\nnom.es\tI\nnz\tI\non.ca\tI\nor.jp\tI\nor.kr\tI\norg\tI\norg.ai\tI\norg.au\tI\norg.br\tI\norg.cn\tI\norg.co\tI\norg.es\tI\norg.hk\tI\norg.in\tI\norg.mx\tI\norg.nz\tI\norg.pl\tI\norg.sg\tI\norg.tw\tI\norg.uk\tI\npages.dev\tP\npl\tI\nplc.uk\tI\npolice.uk\tI\nqc.ca\tI\nre.kr\tI\nres.in\tI\ns3.amazonaws.com\tP\nschool.nz\tI\nse\tI\nsg\tI\ntv\tI\ntw\tI\nuk\tI\nuk.com\tP\nus\tI\nvercel.app\tP\nweb.app\tP\nworkers.dev\tP\nxn--55qx5d.cn\tI\nxn--fiqs8s\tI\nxn--io0a7i.cn\tI\nxn--od0alg.cn\tI\nxyz\tI");
    broadcast use vstd::string::is_ascii_spec_bytes;
    let b = RULES.spec_bytes();
    assert(vstd::string::is_ascii(RULES));
    assert(lines_from(b, 795) == seq![b.subrange(795, 802)] + lines_from(b, 803)) by {
        reveal_with_fuel(find_byte, 9);
        assert(b[802] == 10u8);
    }
    assert(bytes_lt(rule_of(b.subrange(795, 802)), rule_of(b.subrange(803, 810)))) by {
        reveal_with_fuel(find_byte, 7);
        reveal_with_fuel(bytes_lt, 5);
    }
    lemma_sorted_cons(b.subrange(795, 802), lines_from(b, 803));
    assert(lines_from(b, 790) == seq![b.subrange(790, 794)] + lines_from(b, 795)) by {
        reveal_with_fuel(find_byte, 6);
        assert(b[794] == 10u8);
    }
    assert(bytes_lt(rule_of(b.subrange(790, 794)), rule_of(b.subrange(795, 802)))) by {
        reveal_with_fuel(find_byte, 7);
        reveal_with_fuel(bytes_lt, 2);
    }
    lemma_sorted_cons(b.subrange(790, 794), lines_from(b, 795));
    assert(lines_from(b, 782) == seq![b.subrange(782, 789)] + lines_from(b, 790)) by {
        reveal_with_fuel(find_byte, 9);
        assert(b[789] == 10u8);
    }
    assert(bytes_lt(rule_of(b.subrange(782, 789)), rule_of(b.subrange(790, 794)))) by {
        reveal_with_fuel(find_byte, 7);
        reveal_with_fuel(bytes_lt, 3);
    }
    lemma_sorted_cons(b.subrange(782, 789), lines_from(b, 790));
    assert(lines_from(b, 777) == seq![b.subrange(777, 781)] + lines_from(b, 782)) by {
        reveal_with_fuel(find_byte, 6);
        assert(b[781] == 10u8);
    }
    assert(bytes_lt(rule_of(b.subrange(777, 781)), rule_of(b.subrange(782, 789)))) by {
        reveal_with_fuel(find_byte, 7);
        reveal_with_fuel(bytes_lt, 4);
    }
    lemma_sorted_cons(b.subrange(777, 781), lines_from(b, 782));
    assert(lines_from(b, 772) == seq![b.subrange(772, 776)] + lines_from(b, 777)) by {
        reveal_with_fuel(find_byte, 6);
        assert(b[776] == 10u8);
    }
    assert(bytes_lt(rule_of(b.subrange(772, 776)), rule_of(b.subrange(777, 781)))) by {
        reveal_with_fuel(find_byte, 4);
        reveal_with_fuel(bytes_lt, 2);
    }
    lemma_sorted_cons(b.subrange(772, 776), lines_from(b, 777));
    assert(lines_from(b, 763) == seq![b.subrange(763, 771)] + lines_from(b, 772)) by {
        reveal_with_fuel(find_byte, 10);
        assert(b[771] == 10u8);
    }
    assert(bytes_lt(rule_of(b.subrange(763, 771)), rule_of(b.subrange(772, 776)))) by {
        reveal_with_fuel(find_byte, 8);
        reveal_with_fuel(bytes_lt, 3);
    }
    lemma_sorted_cons(b.subrange(763, 771), lines_from(b, 772));
    assert(lines_from(b, 752) == seq![b.subrange(752, 762)] + lines_from(b, 763)) by {
        reveal_with_fuel(find_byte, 12);
        assert(b[762] == 10u8);
    }
    assert(bytes_lt(rule_of(b.subrange(752, 762)), rule_of(b.subrange(763, 771)))) by {
        reveal_with_fuel(find_byte, 10);
        reveal_with_fuel(bytes_lt, 2);
    }
    lemma_sorted_cons(b.subrange(752, 762), lines_from(b, 763));
    assert(lines_from(b, 747) == seq![b.subrange(747, 751)] + lines_from(b, 752)) by {
        reveal_with_fuel(find_byte, 6);
        assert(b[751] == 10u8);
    }
    assert(bytes_lt(rule_of(b.subrange(747, 751)), rule_of(b.subrange(752, 762)))) by {
        reveal_with_fuel(find_byte, 10);
        reveal_with_fuel(bytes_lt, 3);
    }
    lemma_sorted_cons(b.subrange(747, 751), lines_from(b, 752));
}

/// Lines 80 to 87 of [`RULES`] are sorted, given that the lines after them are.
proof fn lemma_rules_from_80()
    requires
        sorted_rules(lines_from(RULES.spec_bytes(), 747)),
        lines_from(RULES.spec_bytes(), 747).len() > 0,
        lines_from(RULES.spec_bytes(), 747)[0] == RULES.spec_bytes().subrange(747, 751),
        lines_from(RULES.spec_bytes(), 747).len() == 71,
        lines_from(RULES.spec_bytes(), 747).last() == RULES.spec_bytes().subrange(1368, 1373),
    ensures
        sorted_rules(lines_from(RULES.spec_bytes(), 684)),
        lines_from(RULES.spec_bytes(), 684).len() > 0,
        lines_from(RULES.spec_bytes(), 684)[0] == RULES.spec_bytes().subrange(684, 698),
        lines_from(RULES.spec_bytes(), 684).len() == 79,
        lines_from(RULES.spec_bytes(), 684).last() == RULES.spec_bytes().subrange(1368, 1373),
        RULES.spec_bytes().len() == 1373,
{
    reveal_strlit("ac\tI\nac.be\tI\nac.in\tI\nac.jp\tI\nac.kr\tI\nac.nz\tI\nac.uk\tI\nai\tI\nak.us\tI\napp\tI\nappspot.com\tP\nasn.au\tI\nau\tI\nazurewebsites.net\tP\nbc.ca\tI\nbe\tI\nbiz\tI\nblogspot.com\tP\nbr\tI\nca\tI\nch\tI\ncloudfront.net\tP\ncn\tI\nco\tI\nco.in\tI\nco.jp\tI\nco.kr\tI\nco.nz\tI\nco.uk\tI\ncom\tI\ncom.ai\tI\ncom.au\tI\ncom.br\tI\ncom.cn\tI\ncom.co\tI\ncom.es\tI\ncom.hk\tI\ncom.mx\tI\ncom.pl\tI\ncom.sg\tI\ncom.tw\tI\nde\tI\ndev\tI\nedu\tI\nedu.au\tI\nedu.br\tI\nedu.cn\tI\nedu.co\tI\nedu.es\tI\nedu.hk\tI\nedu.in\tI\nedu.mx\tI\nedu.sg\tI\nedu.tw\tI\nes\tI\neu\tI\nfirebaseapp.com\tP\nfirm.in\tI\nfr\tI\ngen.in\tI\ngithub.io\tP\ngitlab.io\tP\ngo.jp\tI\ngo.kr\tI\ngob.es\tI\ngob.mx\tI\ngov\tI\ngov.au\tI\ngov.br\tI\ngov.cn\tI\ngov.co\tI\ngov.hk\tI\ngov.in\tI\ngov.sg\tI\ngov.tw\tI\ngov.uk\tI\ngovt.nz\tI\nherokuapp.com\tP\nhk\tI\nid.au\tI\nide.kyoto.jp\tI\nin\tI\nind.in\tI\ninfo\tI\nio\tI\nit\tI\njp\tI\nk12.ak.us\tI\nkr\tI\nkyoto.jp\tI\nltd.uk\tI\nly\tI\nme\tI\nme.uk\tI\nmx\tI\nne.jp\tI\nne.kr\tI\nnet\tI\nnet.ai\tI\nnet.au\tI\nnet.br\tI\nnet.cn\tI\nnet.co\tI\nnet.hk\tI\nnet.in\tI\nnet.mx\tI\nnet.nz\tI\nnet.pl\tI\nnet.sg\tI\nnet.tw\tI\nnet.uk\tI\nnetlify.app\tP\nnhs.uk\tI\nnl\tI\nno\tI\nnom.es\tI\nnz\tI\non.ca\tI\nor.jp\tI\nor.kr\tI\norg\tI\norg.ai\tI\norg.au\tI\norg.br\tI\norg.cn\tI\norg.co\tI\norg.es\tI\norg.hk\tI\norg.in\tI\norg.mx\tI\norg.nz\tI\norg.pl\tI\norg.sg\tI\norg.tw\tI\norg.uk\tI\npages.dev\tP\npl\tI\nplc.uk\tI\npolice.uk\tI\nqc.ca\tI\nre.kr\tI\nres.in\tI\ns3.amazonaws.com\tP\nschool.nz\tI\nse\tI\nsg\tI\ntv\tI\ntw\tI\nuk\tI\nuk.com\tP\nus\tI\nvercel.app\tP\nweb.app\tP\nworkers.dev\tP\nxn--55qx5d.cn\tI\nxn--fiqs8s\tI\nxn--io0a7i.cn\tI\nxn--od0alg.cn\tI\nxyz\tI");
    broadcast use vstd::string::is_ascii_spec_bytes;
    let b = RULES.spec_bytes();
    assert(vstd::string::is_ascii(RULES));
    assert(lines_from(b, 735) == seq![b.subrange(735, 746)] + lines_from(b, 747)) by {
        reveal_with_fuel(find_byte, 13);
        assert(b[746] == 10u8);
    }
    assert(bytes_lt(rule_of(b.subrange(735, 746)), rule_of(b.subrange(747, 751)))) by {
        reveal_with_fuel(find_byte, 11);
        reveal_with_fuel(bytes_lt, 3);
    }
    lemma_sorted_cons(b.subrange(735, 746), lines_from(b, 747));
    assert(lines_from(b, 730) == seq![b.subrange(730, 734)] + lines_from(b, 735)) by {
        reveal_with_fuel(find_byte, 6);
        assert(b[734] == 10u8);
    }
    assert(bytes_lt(rule_of(b.subrange(730, 734)), rule_of(b.subrange(735, 746)))) by {
        reveal_with_fuel(find_byte, 11);
        reveal_with_fuel(bytes_lt, 2);
    }
    lemma_sorted_cons(b.subrange(730, 734), lines_from(b, 735));
    assert(lines_from(b, 725) == seq![b.subrange(725, 729)] + lines_from(b, 730)) by {
        reveal_with_fuel(find_byte, 6);
        assert(b[729] == 10u8);
    }
    assert(bytes_lt(rule_of(b.subrange(725, 729)), rule_of(b.subrange(730, 734)))) by {
        reveal_with_fuel(find_byte, 4);
        reveal_with_fuel(bytes_lt, 2);
    }
    lemma_sorted_cons(b.subrange(725, 729), lines_from(b, 730));
    assert(lines_from(b, 720) == seq![b.subrange(720, 724)] + lines_from(b, 725)) by {
        reveal_with_fuel(find_byte, 6);
        assert(b[724] == 10u8);
    }
    assert(bytes_lt(rule_of(b.subrange(720, 724)), rule_of(b.subrange(725, 729)))) by {
        reveal_with_fuel(find_byte, 4);
        reveal_with_fuel(bytes_lt, 3);
    }
    lemma_sorted_cons(b.subrange(720, 724), lines_from(b, 725));
    assert(lines_from(b, 713) == seq![b.subrange(713, 719)] + lines_from(b, 720)) by {
        reveal_with_fuel(find_byte, 8);
        assert(b[719] == 10u8);
    }
    assert(bytes_lt(rule_of(b.subrange(713, 719)), rule_of(b.subrange(720, 724)))) by {
        reveal_with_fuel(find_byte, 6);
        reveal_with_fuel(bytes_lt, 3);
    }
    lemma_sorted_cons(b.subrange(713, 719), lines_from(b, 720));
    assert(lines_from(b, 704) == seq![b.subrange(704, 712)] + lines_from(b, 713)) by {
        reveal_with_fuel(find_byte, 10);
        assert(b[712] == 10u8);
    }
    assert(bytes_lt(rule_of(b.subrange(704, 712)), rule_of(b.subrange(713, 719)))) by {
        reveal_with_fuel(find_byte, 8);
        reveal_with_fuel(bytes_lt, 4);
    }
    lemma_sorted_cons(b.subrange(704, 712), lines_from(b, 713));
    assert(lines_from(b, 699) == seq![b.subrange(699, 703)] + lines_from(b, 704)) by {
        reveal_with_fuel(find_byte, 6);
        assert(b[703] == 10u8);
    }
    assert(bytes_lt(rule_of(b.subrange(699, 703)), rule_of(b.subrange(704, 712)))) by {
        reveal_with_fuel(find_byte, 8);
        reveal_with_fuel(bytes_lt, 4);
    }
    lemma_sorted_cons(b.subrange(699, 703), lines_from(b, 704));
    assert(lines_from(b, 684) == seq![b.subrange(684, 698)] + lines_from(b, 699)) by {
        reveal_with_fuel(find_byte, 16);
        assert(b[698] == 10u8);
    }
    assert(bytes_lt(rule_of(b.subrange(684, 698)), rule_of(b.subrange(699, 703)))) by {
        reveal_with_fuel(find_byte, 14);
        reveal_with_fuel(bytes_lt, 3);
    }
    lemma_sorted_cons(b.subrange(684, 698), lines_from(b, 699));
}

/// Lines 72 to 79 of [`RULES`] are sorted, given that the lines after them are.
proof fn lemma_rules_from_72()
    requires
        sorted_rules(lines_from(RULES.spec_bytes(), 684)),
        lines_from(RULES.spec_bytes(), 684).len() > 0,
        lines_from(RULES.spec_bytes(), 684)[0] == RULES.spec_bytes().subrange(684, 698),
        lines_from(RULES.spec_bytes(), 684).len() == 79,
        lines_from(RULES.spec_bytes(), 684).last() == RULES.spec_bytes().subrange(1368, 1373),
    ensures
        sorted_rules(lines_from(RULES.spec_bytes(), 609)),
        lines_from(RULES.spec_bytes(), 609).len() > 0,
        lines_from(RULES.spec_bytes(), 609)[0] == RULES.spec_bytes().subrange(609, 617),
        lines_from(RULES.spec_bytes(), 609).len() == 87,
        lines_from(RULES.spec_bytes(), 609).last() == RULES.spec_bytes().subrange(1368, 1373),
        RULES.spec_bytes().len() == 1373,
{
    reveal_strlit("ac\tI\nac.be\tI\nac.in\tI\nac.jp\tI\nac.kr\tI\nac.nz\tI\nac.uk\tI\nai\tI\nak.us\tI\napp\tI\nappspot.com\tP\nasn.au\tI\nau\tI\nazurewebsites.net\tP\nbc.ca\tI\nbe\tI\nbiz\tI\nblogspot.com\tP\nbr\tI\nca\tI\nch\tI\ncloudfront.net\tP\ncn\tI\nco\tI\nco.in\tI\nco.jp\tI\nco.kr\tI\nco.nz\tI\nco.uk\tI\ncom\tI\ncom.ai\tI\ncom.au\tI\ncom.br\tI\ncom.cn\tI\ncom.co\tI\ncom.es\tI\ncom.hk\tI\ncom.mx\tI\ncom.pl\tI\ncom.sg\tI\ncom.tw\tI\nde\tI\ndev\tI\nedu\tI\nedu.au\tI\nedu.br\tI\nedu.cn\tI\nedu.co\tI\nedu.es\tI\nedu.hk\tI\nedu.in\tI\nedu.mx\tI\nedu.sg\tI\nedu.tw\tI\nes\tI\neu\tI\nfirebaseapp.com\tP\nfirm.in\tI\nfr\tI\ngen.in\tI\ngithub.io\tP\ngitlab.io\tP\ngo.jp\tI\ngo.kr\tI\ngob.es\tI\ngob.mx\tI\ngov\tI\ngov.au\tI\ngov.br\tI\ngov.cn\tI\ngov.co\tI\ngov.hk\tI\ngov.in\tI\ngov.sg\tI\ngov.tw\tI\ngov.uk\tI\ngovt.nz\tI\nherokuapp.com\tP\nhk\tI\nid.au\tI\nide.kyoto.jp\tI\nin\tI\nind.in\tI\ninfo\tI\nio\tI\nit\tI\njp\tI\nk12.ak.us\tI\nkr\tI\nkyoto.jp\tI\nltd.uk\tI\nly\tI\nme\tI\nme.uk\tI\nmx\tI\nne.jp\tI\nne.kr\tI\nnet\tI\nnet.ai\tI\nnet.au\tI\nnet.br\tI\nnet.cn\tI\nnet.co\tI\nnet.hk\tI\nnet.in\tI\nnet.mx\tI\nnet.nz\tI\nnet.pl\tI\nnet.sg\tI\nnet.tw\tI\nnet.uk\tI\nnetlify.app\tP\nnhs.uk\tI\nnl\tI\nno\tI\nnom.es\tI\nnz\tI\non.ca\tI\nor.jp\tI\nor.kr\tI\norg\tI\norg.ai\tI\norg.au\tI\norg.br\tI\norg.cn\tI\norg.co\tI\norg.es\tI\norg.hk\tI\norg.in\tI\norg.mx\tI\norg.nz\tI\norg.pl\tI\norg.sg\tI\norg.tw\tI\norg.uk\tI\npages.dev\tP\npl\tI\nplc.uk\tI\npolice.uk\tI\nqc.ca\tI\nre.kr\tI\nres.in\tI\ns3.amazonaws.com\tP\nschool.nz\tI\nse\tI\nsg\tI\ntv\tI\ntw\tI\nuk\tI\nuk.com\tP\nus\tI\nvercel.app\tP\nweb.app\tP\nworkers.dev\tP\nxn--55qx5d.cn\tI\nxn--fiqs8s\tI\nxn--io0a7i.cn\tI\nxn--od0alg.cn\tI\nxyz\tI");
    broadcast use vstd::string::is_ascii_spec_bytes;
    let b = RULES.spec_bytes();
    assert(vstd::string::is_ascii(RULES));
    assert(lines_from(b, 676) == seq![b.subrange(676, 683)] + lines_from(b, 684)) by {
        reveal_with_fuel(find_byte, 9);
        assert(b[683] == 10u8);
    }
    assert(bytes_lt(rule_of(b.subrange(676, 683)), rule_of(b.subrange(684, 698)))) by {
        reveal_with_fuel(find_byte, 14);
        reveal_with_fuel(bytes_lt, 4);
    }
    lemma_sorted_cons(b.subrange(676, 683), lines_from(b, 684));
    assert(lines_from(b, 671) == seq![b.subrange(671, 675)] + lines_from(b, 676)) by {
        reveal_with_fuel(find_byte, 6);
        assert(b[675] == 10u8);
    }
    assert(bytes_lt(rule_of(b.subrange(671, 675)), rule_of(b.subrange(676, 683)))) by {
        reveal_with_fuel(find_byte, 7);
        reveal_with_fuel(bytes_lt, 2);
    }
    lemma_sorted_cons(b.subrange(671, 675), lines_from(b, 676));
    assert(lines_from(b, 655) == seq![b.subrange(655, 670)] + lines_from(b, 671)) by {
        reveal_with_fuel(find_byte, 17);
        assert(b[670] == 10u8);
    }
    assert(bytes_lt(rule_of(b.subrange(655, 670)), rule_of(b.subrange(671, 675)))) by {
        reveal_with_fuel(find_byte, 15);
        reveal_with_fuel(bytes_lt, 3);
    }
    lemma_sorted_cons(b.subrange(655, 670), lines_from(b, 671));
    assert(lines_from(b, 645) == seq![b.subrange(645, 654)] + lines_from(b, 655)) by {
        reveal_with_fuel(find_byte, 11);
        assert(b[654] == 10u8);
    }
    assert(bytes_lt(rule_of(b.subrange(645, 654)), rule_of(b.subrange(655, 670)))) by {
        reveal_with_fuel(find_byte, 15);
        reveal_with_fuel(bytes_lt, 2);
    }
    lemma_sorted_cons(b.subrange(645, 654), lines_from(b, 655));
    assert(lines_from(b, 636) == seq![b.subrange(636, 644)] + lines_from(b, 645)) by {
        reveal_with_fuel(find_byte, 10);
        assert(b[644] == 10u8);
    }
    assert(bytes_lt(rule_of(b.subrange(636, 644)), rule_of(b.subrange(645, 654)))) by {
        reveal_with_fuel(find_byte, 9);
        reveal_with_fuel(bytes_lt, 5);
    }
    lemma_sorted_cons(b.subrange(636, 644), lines_from(b, 645));
    assert(lines_from(b, 627) == seq![b.subrange(627, 635)] + lines_from(b, 636)) by {
        reveal_with_fuel(find_byte, 10);
        assert(b[635] == 10u8);
    }
    assert(bytes_lt(rule_of(b.subrange(627, 635)), rule_of(b.subrange(636, 644)))) by {
        reveal_with_fuel(find_byte, 8);
        reveal_with_fuel(bytes_lt, 6);
    }
    lemma_sorted_cons(b.subrange(627, 635), lines_from(b, 636));
    assert(lines_from(b, 618) == seq![b.subrange(618, 626)] + lines_from(b, 627)) by {
        reveal_with_fuel(find_byte, 10);
        assert(b[626] == 10u8);
    }
    assert(bytes_lt(rule_of(b.subrange(618, 626)), rule_of(b.subrange(627, 635)))) by {
        reveal_with_fuel(find_byte, 8);
        reveal_with_fuel(bytes_lt, 6);
    }
    lemma_sorted_cons(b.subrange(618, 626), lines_from(b, 627));
    assert(lines_from(b, 609) == seq![b.subrange(609, 617)] + lines_from(b, 618)) by {
        reveal_with_fuel(find_byte, 10);
        assert(b[617] == 10u8);
    }
    assert(bytes_lt(rule_of(b.subrange(609, 617)), rule_of(b.subrange(618, 626)))) by {
        reveal_with_fuel(find_byte, 8);
        reveal_with_fuel(bytes_lt, 6);
    }
    lemma_sorted_cons(b.subrange(609, 617), lines_from(b, 618));
}

/// Lines 64 to 71 of [`RULES`] are sorted, given that the lines after them are.
proof fn lemma_rules_from_64()
    requires
        sorted_rules(lines_from(RULES.spec_bytes(), 609)),
        lines_from(RULES.spec_bytes(), 609).len() > 0,
        lines_from(RULES.spec_bytes(), 609)[0] == RULES.spec_bytes().subrange(609, 617),
        lines_from(RULES.spec_bytes(), 609).len() == 87,
        lines_from(RULES.spec_bytes(), 609).last() == RULES.spec_bytes().subrange(1368, 1373),
    ensures
        sorted_rules(lines_from(RULES.spec_bytes(), 540)),
        lines_from(RULES.spec_bytes(), 540).len() > 0,
        lines_from(RULES.spec_bytes(), 540)[0] == RULES.spec_bytes().subrange(540, 548),
        lines_from(RULES.spec_bytes(), 540).len() == 95,
        lines_from(RULES.spec_bytes(), 540).last() == RULES.spec_bytes().subrange(1368, 1373),
        RULES.spec_bytes().len() == 1373,
{
    reveal_strlit("ac\tI\nac.be\tI\nac.in\tI\nac.jp\tI\nac.kr\tI\nac.nz\tI\nac.uk\tI\nai\tI\nak.us\tI\napp\tI\nappspot.com\tP\nasn.au\tI\nau\tI\nazurewebsites.net\tP\nbc.ca\tI\nbe\tI\nbiz\tI\nblogspot.com\tP\nbr\tI\nca\tI\nch\tI\ncloudfront.net\tP\ncn\tI\nco\tI\nco.in\tI\nco.jp\tI\nco.kr\tI\nco.nz\tI\nco.uk\tI\ncom\tI\ncom.ai\tI\ncom.au\tI\ncom.br\tI\ncom.cn\tI\ncom.co\tI\ncom.es\tI\ncom.hk\tI\ncom.mx\tI\ncom.pl\tI\ncom.sg\tI\ncom.tw\tI\nde\tI\ndev\tI\nedu\tI\nedu.au\tI\nedu.br\tI\nedu.cn\tI\nedu.co\tI\nedu.es\tI\nedu.hk\tI\nedu.in\tI\nedu.mx\tI\nedu.sg\tI\nedu.tw\tI\nes\tI\neu\tI\nfirebaseapp.com\tP\nfirm.in\tI\nfr\tI\ngen.in\tI\ngithub.io\tP\ngitlab.io\tP\ngo.jp\tI\ngo.kr\tI\ngob.es\tI\ngob.mx\tI\ngov\tI\ngov.au\tI\ngov.br\tI\ngov.cn\tI\ngov.co\tI\ngov.hk\tI\ngov.in\tI\ngov.sg\tI\ngov.tw\tI\ngov.uk\tI\ngovt.nz\tI\nherokuapp.com\tP\nhk\tI\nid.au\tI\nide.kyoto.jp\tI\nin\tI\nind.in\tI\ninfo\tI\nio\tI\nit\tI\njp\tI\nk12.ak.us\tI\nkr\tI\nkyoto.jp\tI\nltd.uk\tI\nly\tI\nme\tI\nme.uk\tI\nmx\tI\nne.jp\tI\nne.kr\tI\nnet\tI\nnet.ai\tI\nnet.au\tI\nnet.br\tI\nnet.cn\tI\nnet.co\tI\nnet.hk\tI\nnet.in\tI\nnet.mx\tI\nnet.nz\tI\nnet.pl\tI\nnet.sg\tI\nnet.tw\tI\nnet.uk\tI\nnetlify.app\tP\nnhs.uk\tI\nnl\tI\nno\tI\nnom.es\tI\nnz\tI\non.ca\tI\nor.jp\tI\nor.kr\tI\norg\tI\norg.ai\tI\norg.au\tI\norg.br\tI\norg.cn\tI\norg.co\tI\norg.es\tI\norg.hk\tI\norg.in\tI\norg.mx\tI\norg.nz\tI\norg.pl\tI\norg.sg\tI\norg.tw\tI\norg.uk\tI\npages.dev\tP\npl\tI\nplc.uk\tI\npolice.uk\tI\nqc.ca\tI\nre.kr\tI\nres.in\tI\ns3.amazonaws.com\tP\nschool.nz\tI\nse\tI\nsg\tI\ntv\tI\ntw\tI\nuk\tI\nuk.com\tP\nus\tI\nvercel.app\tP\nweb.app\tP\nworkers.dev\tP\nxn--55qx5d.cn\tI\nxn--fiqs8s\tI\nxn--io0a7i.cn\tI\nxn--od0alg.cn\tI\nxyz\tI");
    broadcast use vstd::string::is_ascii_spec_bytes;
    let b = RULES.spec_bytes();
    assert(vstd::string::is_ascii(RULES));
    assert(lines_from(b, 600) == seq![b.subrange(600, 608)] + lines_from(b, 609)) by {
        reveal_with_fuel(find_byte, 10);
        assert(b[608] == 10u8);
    }
    assert(bytes_lt(rule_of(b.subrange(600, 608)), rule_of(b.subrange(609, 617)))) by {
        reveal_with_fuel(find_byte, 8);
        reveal_with_fuel(bytes_lt, 6);
    }
    lemma_sorted_cons(b.subrange(600, 608), lines_from(b, 609));
    assert(lines_from(b, 591) == seq![b.subrange(591, 599)] + lines_from(b, 600)) by {
        reveal_with_fuel(find_byte, 10);
        assert(b[599] == 10u8);
    }
    assert(bytes_lt(rule_of(b.subrange(591, 599)), rule_of(b.subrange(600, 608)))) by {
        reveal_with_fuel(find_byte, 8);
        reveal_with_fuel(bytes_lt, 6);
    }
    lemma_sorted_cons(b.subrange(591, 599), lines_from(b, 600));
    assert(lines_from(b, 582) == seq![b.subrange(582, 590)] + lines_from(b, 591)) by {
        reveal_with_fuel(find_byte, 10);
        assert(b[590] == 10u8);
    }
    assert(bytes_lt(rule_of(b.subrange(582, 590)), rule_of(b.subrange(591, 599)))) by {
        reveal_with_fuel(find_byte, 8);
        reveal_with_fuel(bytes_lt, 7);
    }
    lemma_sorted_cons(b.subrange(582, 590), lines_from(b, 591));
    assert(lines_from(b, 573) == seq![b.subrange(573, 581)] + lines_from(b, 582)) by {
        reveal_with_fuel(find_byte, 10);
        assert(b[581] == 10u8);
    }
    assert(bytes_lt(rule_of(b.subrange(573, 581)), rule_of(b.subrange(582, 590)))) by {
        reveal_with_fuel(find_byte, 8);
        reveal_with_fuel(bytes_lt, 6);
    }
    lemma_sorted_cons(b.subrange(573, 581), lines_from(b, 582));
    assert(lines_from(b, 564) == seq![b.subrange(564, 572)] + lines_from(b, 573)) by {
        reveal_with_fuel(find_byte, 10);
        assert(b[572] == 10u8);
    }
    assert(bytes_lt(rule_of(b.subrange(564, 572)), rule_of(b.subrange(573, 581)))) by {
        reveal_with_fuel(find_byte, 8);
        reveal_with_fuel(bytes_lt, 6);
    }
    lemma_sorted_cons(b.subrange(564, 572), lines_from(b, 573));
    assert(lines_from(b, 558) == seq![b.subrange(558, 563)] + lines_from(b, 564)) by {
        reveal_with_fuel(find_byte, 7);
        assert(b[563] == 10u8);
    }
    assert(bytes_lt(rule_of(b.subrange(558, 563)), rule_of(b.subrange(564, 572)))) by {
        reveal_with_fuel(find_byte, 8);
        reveal_with_fuel(bytes_lt, 5);
    }
    lemma_sorted_cons(b.subrange(558, 563), lines_from(b, 564));
    assert(lines_from(b, 549) == seq![b.subrange(549, 557)] + lines_from(b, 558)) by {
        reveal_with_fuel(find_byte, 10);
        assert(b[557] == 10u8);
    }
    assert(bytes_lt(rule_of(b.subrange(549, 557)), rule_of(b.subrange(558, 563)))) by {
        reveal_with_fuel(find_byte, 8);
        reveal_with_fuel(bytes_lt, 4);
    }
    lemma_sorted_cons(b.subrange(549, 557), lines_from(b, 558));
    assert(lines_from(b, 540) == seq![b.subrange(540, 548)] + lines_from(b, 549)) by {
        reveal_with_fuel(find_byte, 10);
        assert(b[548] == 10u8);
    }
    assert(bytes_lt(rule_of(b.subrange(540, 548)), rule_of(b.subrange(549, 557)))) by {
        reveal_with_fuel(find_byte, 8);
        reveal_with_fuel(bytes_lt, 6);
    }
    lemma_sorted_cons(b.subrange(540, 548), lines_from(b, 549));
}

/// Lines 56 to 63 of [`RULES`] are sorted, given that the lines after them are.
proof fn lemma_rules_from_56()
    requires
        sorted_rules(lines_from(RULES.spec_bytes(), 540)),
        lines_from(RULES.spec_bytes(), 540).len() > 0,
        lines_from(RULES.spec_bytes(), 540)[0] == RULES.spec_bytes().subrange(540, 548),
        lines_from(RULES.spec_bytes(), 540).len() == 95,
        lines_from(RULES.spec_bytes(), 540).last() == RULES.spec_bytes().subrange(1368, 1373),
    ensures
        sorted_rules(lines_from(RULES.spec_bytes(), 458)),
        lines_from(RULES.spec_bytes(), 458).len() > 0,
        lines_from(RULES.spec_bytes(), 458)[0] == RULES.spec_bytes().subrange(458, 475),
        lines_from(RULES.spec_bytes(), 458).len() == 103,
        lines_from(RULES.spec_bytes(), 458).last() == RULES.spec_bytes().subrange(1368, 1373),
        RULES.spec_bytes().len() == 1373,
{
    reveal_strlit("ac\tI\nac.be\tI\nac.in\tI\nac.jp\tI\nac.kr\tI\nac.nz\tI\nac.uk\tI\nai\tI\nak.us\tI\napp\tI\nappspot.com\tP\nasn.au\tI\nau\tI\nazurewebsites.net\tP\nbc.ca\tI\nbe\tI\nbiz\tI\nblogspot.com\tP\nbr\tI\nca\tI\nch\tI\ncloudfront.net\tP\ncn\tI\nco\tI\nco.in\tI\nco.jp\tI\nco.kr\tI\nco.nz\tI\nco.uk\tI\ncom\tI\ncom.ai\tI\ncom.au\tI\ncom.br\tI\ncom.cn\tI\ncom.co\tI\ncom.es\tI\ncom.hk\tI\ncom.mx\tI\ncom.pl\tI\ncom.sg\tI\ncom.tw\tI\nde\tI\ndev\tI\nedu\tI\nedu.au\tI\nedu.br\tI\nedu.cn\tI\nedu.co\tI\nedu.es\tI\nedu.hk\tI\nedu.in\tI\nedu.mx\tI\nedu.sg\tI\nedu.tw\tI\nes\tI\neu\tI\nfirebaseapp.com\tP\nfirm.in\tI\nfr\tI\ngen.in\tI\ngithub.io\tP\ngitlab.io\tP\ngo.jp\tI\ngo.kr\tI\ngob.es\tI\ngob.mx\tI\ngov\tI\ngov.au\tI\ngov.br\tI\ngov.cn\tI\ngov.co\tI\ngov.hk\tI\ngov.in\tI\ngov.sg\tI\ngov.tw\tI\ngov.uk\tI\ngovt.nz\tI\nherokuapp.com\tP\nhk\tI\nid.au\tI\nide.kyoto.jp\tI\nin\tI\nind.in\tI\ninfo\tI\nio\tI\nit\tI\njp\tI\nk12.ak.us\tI\nkr\tI\nkyoto.jp\tI\nltd.uk\tI\nly\tI\nme\tI\nme.uk\tI\nmx\tI\nne.jp\tI\nne.kr\tI\nnet\tI\nnet.ai\tI\nnet.au\tI\nnet.br\tI\nnet.cn\tI\nnet.co\tI\nnet.hk\tI\nnet.in\tI\nnet.mx\tI\nnet.nz\tI\nnet.pl\tI\nnet.sg\tI\nnet.tw\tI\nnet.uk\tI\nnetlify.app\tP\nnhs.uk\tI\nnl\tI\nno\tI\nnom.es\tI\nnz\tI\non.ca\tI\nor.jp\tI\nor.kr\tI\norg\tI\norg.ai\tI\norg.au\tI\norg.br\tI\norg.cn\tI\norg.co\tI\norg.es\tI\norg.hk\tI\norg.in\tI\norg.mx\tI\norg.nz\tI\norg.pl\tI\norg.sg\tI\norg.tw\tI\norg.uk\tI\npages.dev\tP\npl\tI\nplc.uk\tI\npolice.uk\tI\nqc.ca\tI\nre.kr\tI\nres.in\tI\ns3.amazonaws.com\tP\nschool.nz\tI\nse\tI\nsg\tI\ntv\tI\ntw\tI\nuk\tI\nuk.com\tP\nus\tI\nvercel.app\tP\nweb.app\tP\nworkers.dev\tP\nxn--55qx5d.cn\tI\nxn--fiqs8s\tI\nxn--io0a7i.cn\tI\nxn--od0alg.cn\tI\nxyz\tI");
    broadcast use vstd::string::is_ascii_spec_bytes;
    let b = RULES.spec_bytes();
    assert(vstd::string::is_ascii(RULES));
    assert(lines_from(b, 532) == seq![b.subrange(532, 539)] + lines_from(b, 540)) by {
        reveal_with_fuel(find_byte, 9);
        assert(b[539] == 10u8);
    }
    assert(bytes_lt(rule_of(b.subrange(532, 539)), rule_of(b.subrange(540, 548)))) by {
        reveal_with_fuel(find_byte, 8);
        reveal_with_fuel(bytes_lt, 4);
    }
    lemma_sorted_cons(b.subrange(532, 539), lines_from(b, 540));
    assert(lines_from(b, 524) == seq![b.subrange(524, 531)] + lines_from(b, 532)) by {
        reveal_with_fuel(find_byte, 9);
        assert(b[531] == 10u8);
    }
    assert(bytes_lt(rule_of(b.subrange(524, 531)), rule_of(b.subrange(532, 539)))) by {
        reveal_with_fuel(find_byte, 7);
        reveal_with_fuel(bytes_lt, 5);
    }
    lemma_sorted_cons(b.subrange(524, 531), lines_from(b, 532));
    assert(lines_from(b, 512) == seq![b.subrange(512, 523)] + lines_from(b, 524)) by {
        reveal_with_fuel(find_byte, 13);
        assert(b[523] == 10u8);
    }
    assert(bytes_lt(rule_of(b.subrange(512, 523)), rule_of(b.subrange(524, 531)))) by {
        reveal_with_fuel(find_byte, 11);
        reveal_with_fuel(bytes_lt, 3);
    }
    lemma_sorted_cons(b.subrange(512, 523), lines_from(b, 524));
    assert(lines_from(b, 500) == seq![b.subrange(500, 511)] + lines_from(b, 512)) by {
        reveal_with_fuel(find_byte, 13);
        assert(b[511] == 10u8);
    }
    assert(bytes_lt(rule_of(b.subrange(500, 511)), rule_of(b.subrange(512, 523)))) by {
        reveal_with_fuel(find_byte, 11);
        reveal_with_fuel(bytes_lt, 5);
    }
    lemma_sorted_cons(b.subrange(500, 511), lines_from(b, 512));
    assert(lines_from(b, 491) == seq![b.subrange(491, 499)] + lines_from(b, 500)) by {
        reveal_with_fuel(find_byte, 10);
        assert(b[499] == 10u8);
    }
    assert(bytes_lt(rule_of(b.subrange(491, 499)), rule_of(b.subrange(500, 511)))) by {
        reveal_with_fuel(find_byte, 11);
        reveal_with_fuel(bytes_lt, 3);
    }
    lemma_sorted_cons(b.subrange(491, 499), lines_from(b, 500));
    assert(lines_from(b, 486) == seq![b.subrange(486, 490)] + lines_from(b, 491)) by {
        reveal_with_fuel(find_byte, 6);
        assert(b[490] == 10u8);
    }
    assert(bytes_lt(rule_of(b.subrange(486, 490)), rule_of(b.subrange(491, 499)))) by {
        reveal_with_fuel(find_byte, 8);
        reveal_with_fuel(bytes_lt, 2);
    }
    lemma_sorted_cons(b.subrange(486, 490), lines_from(b, 491));
    assert(lines_from(b, 476) == seq![b.subrange(476, 485)] + lines_from(b, 486)) by {
        reveal_with_fuel(find_byte, 11);
        assert(b[485] == 10u8);
    }
    assert(bytes_lt(rule_of(b.subrange(476, 485)), rule_of(b.subrange(486, 490)))) by {
        reveal_with_fuel(find_byte, 9);
        reveal_with_fuel(bytes_lt, 3);
    }
    lemma_sorted_cons(b.subrange(476, 485), lines_from(b, 486));
    assert(lines_from(b, 458) == seq![b.subrange(458, 475)] + lines_from(b, 476)) by {
        reveal_with_fuel(find_byte, 19);
        assert(b[475] == 10u8);
    }
    assert(bytes_lt(rule_of(b.subrange(458, 475)), rule_of(b.subrange(476, 485)))) by {
        reveal_with_fuel(find_byte, 17);
        reveal_with_fuel(bytes_lt, 5);
    }
    lemma_sorted_cons(b.subrange(458, 475), lines_from(b, 476));
}

/// Lines 48 to 55 of [`RULES`] are sorted, given that the lines after them are.
proof fn lemma_rules_from_48()
    requires
        sorted_rules(lines_from(RULES.spec_bytes(), 458)),
        lines_from(RULES.spec_bytes(), 458).len() > 0,
        lines_from(RULES.spec_bytes(), 458)[0] == RULES.spec_bytes().subrange(458, 475),
        lines_from(RULES.spec_bytes(), 458).len() == 103,
        lines_from(RULES.spec_bytes(), 458).last() == RULES.spec_bytes().subrange(1368, 1373),
    ensures
        sorted_rules(lines_from(RULES.spec_bytes(), 394)),
        lines_from(RULES.spec_bytes(), 394).len() > 0,
        lines_from(RULES.spec_bytes(), 394)[0] == RULES.spec_bytes().subrange(394, 402),
        lines_from(RULES.spec_bytes(), 394).len() == 111,
        lines_from(RULES.spec_bytes(), 394).last() == RULES.spec_bytes().subrange(1368, 1373),
        RULES.spec_bytes().len() == 1373,
{
    reveal_strlit("ac\tI\nac.be\tI\nac.in\tI\nac.jp\tI\nac.kr\tI\nac.nz\tI\nac.uk\tI\nai\tI\nak.us\tI\napp\tI\nappspot.com\tP\nasn.au\tI\nau\tI\nazurewebsites.net\tP\nbc.ca\tI\nbe\tI\nbiz\tI\nblogspot.com\tP\nbr\tI\nca\tI\nch\tI\ncloudfront.net\tP\ncn\tI\nco\tI\nco.in\tI\nco.jp\tI\nco.kr\tI\nco.nz\tI\nco.uk\tI\ncom\tI\ncom.ai\tI\ncom.au\tI\ncom.br\tI\ncom.cn\tI\ncom.co\tI\ncom.es\tI\ncom.hk\tI\ncom.mx\tI\ncom.pl\tI\ncom.sg\tI\ncom.tw\tI\nde\tI\ndev\tI\nedu\tI\nedu.au\tI\nedu.br\tI\nedu.cn\tI\nedu.co\tI\nedu.es\tI\nedu.hk\tI\nedu.in\tI\nedu.mx\tI\nedu.sg\tI\nedu.tw\tI\nes\tI\neu\tI\nfirebaseapp.com\tP\nfirm.in\tI\nfr\tI\ngen.in\tI\ngithub.io\tP\ngitlab.io\tP\ngo.jp\tI\ngo.kr\tI\ngob.es\tI\ngob.mx\tI\ngov\tI\ngov.au\tI\ngov.br\tI\ngov.cn\tI\ngov.co\tI\ngov.hk\tI\ngov.in\tI\ngov.sg\tI\ngov.tw\tI\ngov.uk\tI\ngovt.nz\tI\nherokuapp.com\tP\nhk\tI\nid.au\tI\nide.kyoto.jp\tI\nin\tI\nind.in\tI\ninfo\tI\nio\tI\nit\tI\njp\tI\nk12.ak.us\tI\nkr\tI\nkyoto.jp\tI\nltd.uk\tI\nly\tI\nme\tI\nme.uk\tI\nmx\tI\nne.jp\tI\nne.kr\tI\nnet\tI\nnet.ai\tI\nnet.au\tI\nnet.br\tI\nnet.cn\tI\nnet.co\tI\nnet.hk\tI\nnet.in\tI\nnet.mx\tI\nnet.nz\tI\nnet.pl\tI\nnet.sg\tI\nnet.tw\tI\nnet.uk\tI\nnetlify.app\tP\nnhs.uk\tI\nnl\tI\nno\tI\nnom.es\tI\nnz\tI\non.ca\tI\nor.jp\tI\nor.kr\tI\norg\tI\norg.ai\tI\norg.au\tI\norg.br\tI\norg.cn\tI\norg.co\tI\norg.es\tI\norg.hk\tI\norg.in\tI\norg.mx\tI\norg.nz\tI\norg.pl\tI\norg.sg\tI\norg.tw\tI\norg.uk\tI\npages.dev\tP\npl\tI\nplc.uk\tI\npolice.uk\tI\nqc.ca\tI\nre.kr\tI\nres.in\tI\ns3.amazonaws.com\tP\nschool.nz\tI\nse\tI\nsg\tI\ntv\tI\ntw\tI\nuk\tI\nuk.com\tP\nus\tI\nvercel.app\tP\nweb.app\tP\nworkers.dev\tP\nxn--55qx5d.cn\tI\nxn--fiqs8s\tI\nxn--io0a7i.cn\tI\nxn--od0alg.cn\tI\nxyz\tI");
    broadcast use vstd::string::is_ascii_spec_bytes;
    let b = RULES.spec_bytes();
    assert(vstd::string::is_ascii(RULES));
    assert(lines_from(b, 453) == seq![b.subrange(453, 457)] + lines_from(b, 458)) by {
        reveal_with_fuel(find_byte, 6);
        assert(b[457] == 10u8);
    }
    assert(bytes_lt(rule_of(b.subrange(453, 457)), rule_of(b.subrange(458, 475)))) by {
        reveal_with_fuel(find_byte, 17);
        reveal_with_fuel(bytes_lt, 2);
    }
    lemma_sorted_cons(b.subrange(453, 457), lines_from(b, 458));
    assert(lines_from(b, 448) == seq![b.subrange(448, 452)] + lines_from(b, 453)) by {
        reveal_with_fuel(find_byte, 6);
        assert(b[452] == 10u8);
    }
    assert(bytes_lt(rule_of(b.subrange(448, 452)), rule_of(b.subrange(453, 457)))) by {
        reveal_with_fuel(find_byte, 4);
        reveal_with_fuel(bytes_lt, 3);
    }
    lemma_sorted_cons(b.subrange(448, 452), lines_from(b, 453));
    assert(lines_from(b, 439) == seq![b.subrange(439, 447)] + lines_from(b, 448)) by {
        reveal_with_fuel(find_byte, 10);
        assert(b[447] == 10u8);
    }
    assert(bytes_lt(rule_of(b.subrange(439, 447)), rule_of(b.subrange(448, 452)))) by {
        reveal_with_fuel(find_byte, 8);
        reveal_with_fuel(bytes_lt, 3);
    }
    lemma_sorted_cons(b.subrange(439, 447), lines_from(b, 448));
    assert(lines_from(b, 430) == seq![b.subrange(430, 438)] + lines_from(b, 439)) by {
        reveal_with_fuel(find_byte, 10);
        assert(b[438] == 10u8);
    }
    assert(bytes_lt(rule_of(b.subrange(430, 438)), rule_of(b.subrange(439, 447)))) by {
        reveal_with_fuel(find_byte, 8);
        reveal_with_fuel(bytes_lt, 6);
    }
    lemma_sorted_cons(b.subrange(430, 438), lines_from(b, 439));
    assert(lines_from(b, 421) == seq![b.subrange(421, 429)] + lines_from(b, 430)) by {
        reveal_with_fuel(find_byte, 10);
        assert(b[429] == 10u8);
    }
    assert(bytes_lt(rule_of(b.subrange(421, 429)), rule_of(b.subrange(430, 438)))) by {
        reveal_with_fuel(find_byte, 8);
        reveal_with_fuel(bytes_lt, 6);
    }
    lemma_sorted_cons(b.subrange(421, 429), lines_from(b, 430));
    assert(lines_from(b, 412) == seq![b.subrange(412, 420)] + lines_from(b, 421)) by {
        reveal_with_fuel(find_byte, 10);
        assert(b[420] == 10u8);
    }
    assert(bytes_lt(rule_of(b.subrange(412, 420)), rule_of(b.subrange(421, 429)))) by {
        reveal_with_fuel(find_byte, 8);
        reveal_with_fuel(bytes_lt, 6);
    }
    lemma_sorted_cons(b.subrange(412, 420), lines_from(b, 421));
    assert(lines_from(b, 403) == seq![b.subrange(403, 411)] + lines_from(b, 412)) by {
        reveal_with_fuel(find_byte, 10);
        assert(b[411] == 10u8);
    }
    assert(bytes_lt(rule_of(b.subrange(403, 411)), rule_of(b.subrange(412, 420)))) by {
        reveal_with_fuel(find_byte, 8);
        reveal_with_fuel(bytes_lt, 6);
    }
    lemma_sorted_cons(b.subrange(403, 411), lines_from(b, 412));
    assert(lines_from(b, 394) == seq![b.subrange(394, 402)] + lines_from(b, 403)) by {
        reveal_with_fuel(find_byte, 10);
        assert(b[402] == 10u8);
    }
    assert(bytes_lt(rule_of(b.subrange(394, 402)), rule_of(b.subrange(403, 411)))) by {
        reveal_with_fuel(find_byte, 8);
        reveal_with_fuel(bytes_lt, 6);
    }
    lemma_sorted_cons(b.subrange(394, 402), lines_from(b, 403));
}

/// Lines 40 to 47 of [`RULES`] are sorted, given that the lines after them are.
proof fn lemma_rules_from_40()
    requires
        sorted_rules(lines_from(RULES.spec_bytes(), 394)),
        lines_from(RULES.spec_bytes(), 394).len() > 0,
        lines_from(RULES.spec_bytes(), 394)[0] == RULES.spec_bytes().subrange(394, 402),
        lines_from(RULES.spec_bytes(), 394).len() == 111,
        lines_from(RULES.spec_bytes(), 394).last() == RULES.spec_bytes().subrange(1368, 1373),
    ensures
        sorted_rules(lines_from(RULES.spec_bytes(), 332)),
        lines_from(RULES.spec_bytes(), 332).len() > 0,
        lines_from(RULES.spec_bytes(), 332)[0] == RULES.spec_bytes().subrange(332, 340),
        lines_from(RULES.spec_bytes(), 332).len() == 119,
        lines_from(RULES.spec_bytes(), 332).last() == RULES.spec_bytes().subrange(1368, 1373),
        RULES.spec_bytes().len() == 1373,
{
    reveal_strlit("ac\tI\nac.be\tI\nac.in\tI\nac.jp\tI\nac.kr\tI\nac.nz\tI\nac.uk\tI\nai\tI\nak.us\tI\napp\tI\nappspot.com\tP\nasn.au\tI\nau\tI\nazurewebsites.net\tP\nbc.ca\tI\nbe\tI\nbiz\tI\nblogspot.com\tP\nbr\tI\nca\tI\nch\tI\ncloudfront.net\tP\ncn\tI\nco\tI\nco.in\tI\nco.jp\tI\nco.kr\tI\nco.nz\tI\nco.uk\tI\ncom\tI\ncom.ai\tI\ncom.au\tI\ncom.br\tI\ncom.cn\tI\ncom.co\tI\ncom.es\tI\ncom.hk\tI\ncom.mx\tI\ncom.pl\tI\ncom.sg\tI\ncom.tw\tI\nde\tI\ndev\tI\nedu\tI\nedu.au\tI\nedu.br\tI\nedu.cn\tI\nedu.co\tI\nedu.es\tI\nedu.hk\tI\nedu.in\tI\nedu.mx\tI\nedu.sg\tI\nedu.tw\tI\nes\tI\neu\tI\nfirebaseapp.com\tP\nfirm.in\tI\nfr\tI\ngen.in\tI\ngithub.io\tP\ngitlab.io\tP\ngo.jp\tI\ngo.kr\tI\ngob.es\tI\ngob.mx\tI\ngov\tI\ngov.au\tI\ngov.br\tI\ngov.cn\tI\ngov.co\tI\ngov.hk\tI\ngov.in\tI\ngov.sg\tI\ngov.tw\tI\ngov.uk\tI\ngovt.nz\tI\nherokuapp.com\tP\nhk\tI\nid.au\tI\nide.kyoto.jp\tI\nin\tI\nind.in\tI\ninfo\tI\nio\tI\nit\tI\njp\tI\nk12.ak.us\tI\nkr\tI\nkyoto.jp\tI\nltd.uk\tI\nly\tI\nme\tI\nme.uk\tI\nmx\tI\nne.jp\tI\nne.kr\tI\nnet\tI\nnet.ai\tI\nnet.au\tI\nnet.br\tI\nnet.cn\tI\nnet.co\tI\nnet.hk\tI\nnet.in\tI\nnet.mx\tI\nnet.nz\tI\nnet.pl\tI\nnet.sg\tI\nnet.tw\tI\nnet.uk\tI\nnetlify.app\tP\nnhs.uk\tI\nnl\tI\nno\tI\nnom.es\tI\nnz\tI\non.ca\tI\nor.jp\tI\nor.kr\tI\norg\tI\norg.ai\tI\norg.au\tI\norg.br\tI\norg.cn\tI\norg.co\tI\norg.es\tI\norg.hk\tI\norg.in\tI\norg.mx\tI\norg.nz\tI\norg.pl\tI\norg.sg\tI\norg.tw\tI\norg.uk\tI\npages.dev\tP\npl\tI\nplc.uk\tI\npolice.uk\tI\nqc.ca\tI\nre.kr\tI\nres.in\tI\ns3.amazonaws.com\tP\nschool.nz\tI\nse\tI\nsg\tI\ntv\tI\ntw\tI\nuk\tI\nuk.com\tP\nus\tI\nvercel.app\tP\nweb.app\tP\nworkers.dev\tP\nxn--55qx5d.cn\tI\nxn--fiqs8s\tI\nxn--io0a7i.cn\tI\nxn--od0alg.cn\tI\nxyz\tI");
    broadcast use vstd::string::is_ascii_spec_bytes;
    let b = RULES.spec_bytes();
    assert(vstd::string::is_ascii(RULES));
    assert(lines_from(b, 385) == seq![b.subrange(385, 393)] + lines_from(b, 394)) by {
        reveal_with_fuel(find_byte, 10);
        assert(b[393] == 10u8);
    }
    assert(bytes_lt(rule_of(b.subrange(385, 393)), rule_of(b.subrange(394, 402)))) by {
        reveal_with_fuel(find_byte, 8);
        reveal_with_fuel(bytes_lt, 6);
    }
    lemma_sorted_cons(b.subrange(385, 393), lines_from(b, 394));
    assert(lines_from(b, 376) == seq![b.subrange(376, 384)] + lines_from(b, 385)) by {
        reveal_with_fuel(find_byte, 10);
        assert(b[384] == 10u8);
    }
    assert(bytes_lt(rule_of(b.subrange(376, 384)), rule_of(b.subrange(385, 393)))) by {
        reveal_with_fuel(find_byte, 8);
        reveal_with_fuel(bytes_lt, 7);
    }
    lemma_sorted_cons(b.subrange(376, 384), lines_from(b, 385));
    assert(lines_from(b, 367) == seq![b.subrange(367, 375)] + lines_from(b, 376)) by {
        reveal_with_fuel(find_byte, 10);
        assert(b[375] == 10u8);
    }
    assert(bytes_lt(rule_of(b.subrange(367, 375)), rule_of(b.subrange(376, 384)))) by {
        reveal_with_fuel(find_byte, 8);
        reveal_with_fuel(bytes_lt, 6);
    }
    lemma_sorted_cons(b.subrange(367, 375), lines_from(b, 376));
    assert(lines_from(b, 358) == seq![b.subrange(358, 366)] + lines_from(b, 367)) by {
        reveal_with_fuel(find_byte, 10);
        assert(b[366] == 10u8);
    }
    assert(bytes_lt(rule_of(b.subrange(358, 366)), rule_of(b.subrange(367, 375)))) by {
        reveal_with_fuel(find_byte, 8);
        reveal_with_fuel(bytes_lt, 6);
    }
    lemma_sorted_cons(b.subrange(358, 366), lines_from(b, 367));
    assert(lines_from(b, 352) == seq![b.subrange(352, 357)] + lines_from(b, 358)) by {
        reveal_with_fuel(find_byte, 7);
        assert(b[357] == 10u8);
    }
    assert(bytes_lt(rule_of(b.subrange(352, 357)), rule_of(b.subrange(358, 366)))) by {
        reveal_with_fuel(find_byte, 8);
        reveal_with_fuel(bytes_lt, 5);
    }
    lemma_sorted_cons(b.subrange(352, 357), lines_from(b, 358));
    assert(lines_from(b, 346) == seq![b.subrange(346, 351)] + lines_from(b, 352)) by {
        reveal_with_fuel(find_byte, 7);
        assert(b[351] == 10u8);
    }
    assert(bytes_lt(rule_of(b.subrange(346, 351)), rule_of(b.subrange(352, 357)))) by {
        reveal_with_fuel(find_byte, 5);
        reveal_with_fuel(bytes_lt, 2);
    }
    lemma_sorted_cons(b.subrange(346, 351), lines_from(b, 352));
    assert(lines_from(b, 341) == seq![b.subrange(341, 345)] + lines_from(b, 346)) by {
        reveal_with_fuel(find_byte, 6);
        assert(b[345] == 10u8);
    }
    assert(bytes_lt(rule_of(b.subrange(341, 345)), rule_of(b.subrange(346, 351)))) by {
        reveal_with_fuel(find_byte, 5);
        reveal_with_fuel(bytes_lt, 4);
    }
    lemma_sorted_cons(b.subrange(341, 345), lines_from(b, 346));
    assert(lines_from(b, 332) == seq![b.subrange(332, 340)] + lines_from(b, 341)) by {
        reveal_with_fuel(find_byte, 10);
        assert(b[340] == 10u8);
    }
    assert(bytes_lt(rule_of(b.subrange(332, 340)), rule_of(b.subrange(341, 345)))) by {
        reveal_with_fuel(find_byte, 8);
        reveal_with_fuel(bytes_lt, 2);
    }
    lemma_sorted_cons(b.subrange(332, 340), lines_from(b, 341));
}

/// Lines 32 to 39 of [`RULES`] are sorted, given that the lines after them are.
proof fn lemma_rules_from_32()
    requires
        sorted_rules(lines_from(RULES.spec_bytes(), 332)),
        lines_from(RULES.spec_bytes(), 332).len() > 0,
        lines_from(RULES.spec_bytes(), 332)[0] == RULES.spec_bytes().subrange(332, 340),
        lines_from(RULES.spec_bytes(), 332).len() == 119,
        lines_from(RULES.spec_bytes(), 332).last() == RULES.spec_bytes().subrange(1368, 1373),
    ensures
        sorted_rules(lines_from(RULES.spec_bytes(), 260)),
        lines_from(RULES.spec_bytes(), 260).len() > 0,
        lines_from(RULES.spec_bytes(), 260)[0] == RULES.spec_bytes().subrange(260, 268),
        lines_from(RULES.spec_bytes(), 260).len() == 127,
        lines_from(RULES.spec_bytes(), 260).last() == RULES.spec_bytes().subrange(1368, 1373),
        RULES.spec_bytes().len() == 1373,
{
    reveal_strlit("ac\tI\nac.be\tI\nac.in\tI\nac.jp\tI\nac.kr\tI\nac.nz\tI\nac.uk\tI\nai\tI\nak.us\tI\napp\tI\nappspot.com\tP\nasn.au\tI\nau\tI\nazurewebsites.net\tP\nbc.ca\tI\nbe\tI\nbiz\tI\nblogspot.com\tP\nbr\tI\nca\tI\nch\tI\ncloudfront.net\tP\ncn\tI\nco\tI\nco.in\tI\nco.jp\tI\nco.kr\tI\nco.nz\tI\nco.uk\tI\ncom\tI\ncom.ai\tI\ncom.au\tI\ncom.br\tI\ncom.cn\tI\ncom.co\tI\ncom.es\tI\ncom.hk\tI\ncom.mx\tI\ncom.pl\tI\ncom.sg\tI\ncom.tw\tI\nde\tI\ndev\tI\nedu\tI\nedu.au\tI\nedu.br\tI\nedu.cn\tI\nedu.co\tI\nedu.es\tI\nedu.hk\tI\nedu.in\tI\nedu.mx\tI\nedu.sg\tI\nedu.tw\tI\nes\tI\neu\tI\nfirebaseapp.com\tP\nfirm.in\tI\nfr\tI\ngen.in\tI\ngithub.io\tP\ngitlab.io\tP\ngo.jp\tI\ngo.kr\tI\ngob.es\tI\ngob.mx\tI\ngov\tI\ngov.au\tI\ngov.br\tI\ngov.cn\tI\ngov.co\tI\ngov.hk\tI\ngov.in\tI\ngov.sg\tI\ngov.tw\tI\ngov.uk\tI\ngovt.nz\tI\nherokuapp.com\tP\nhk\tI\nid.au\tI\nide.kyoto.jp\tI\nin\tI\nind.in\tI\ninfo\tI\nio\tI\nit\tI\njp\tI\nk12.ak.us\tI\nkr\tI\nkyoto.jp\tI\nltd.uk\tI\nly\tI\nme\tI\nme.uk\tI\nmx\tI\nne.jp\tI\nne.kr\tI\nnet\tI\nnet.ai\tI\nnet.au\tI\nnet.br\tI\nnet.cn\tI\nnet.co\tI\nnet.hk\tI\nnet.in\tI\nnet.mx\tI\nnet.nz\tI\nnet.pl\tI\nnet.sg\tI\nnet.tw\tI\nnet.uk\tI\nnetlify.app\tP\nnhs.uk\tI\nnl\tI\nno\tI\nnom.es\tI\nnz\tI\non.ca\tI\nor.jp\tI\nor.kr\tI\norg\tI\norg.ai\tI\norg.au\tI\norg.br\tI\norg.cn\tI\norg.co\tI\norg.es\tI\norg.hk\tI\norg.in\tI\norg.mx\tI\norg.nz\tI\norg.pl\tI\norg.sg\tI\norg.tw\tI\norg.uk\tI\npages.dev\tP\npl\tI\nplc.uk\tI\npolice.uk\tI\nqc.ca\tI\nre.kr\tI\nres.in\tI\ns3.amazonaws.com\tP\nschool.nz\tI\nse\tI\nsg\tI\ntv\tI\ntw\tI\nuk\tI\nuk.com\tP\nus\tI\nvercel.app\tP\nweb.app\tP\nworkers.dev\tP\nxn--55qx5d.cn\tI\nxn--fiqs8s\tI\nxn--io0a7i.cn\tI\nxn--od0alg.cn\tI\nxyz\tI");
    broadcast use vstd::string::is_ascii_spec_bytes;
    let b = RULES.spec_bytes();
    assert(vstd::string::is_ascii(RULES));
    assert(lines_from(b, 323) == seq![b.subrange(323, 331)] + lines_from(b, 332)) by {
        reveal_with_fuel(find_byte, 10);
        assert(b[331] == 10u8);
    }
    assert(bytes_lt(rule_of(b.subrange(323, 331)), rule_of(b.subrange(332, 340)))) by {
        reveal_with_fuel(find_byte, 8);
        reveal_with_fuel(bytes_lt, 6);
    }
    lemma_sorted_cons(b.subrange(323, 331), lines_from(b, 332));
    assert(lines_from(b, 314) == seq![b.subrange(314, 322)] + lines_from(b, 323)) by {
        reveal_with_fuel(find_byte, 10);
        assert(b[322] == 10u8);
    }
    assert(bytes_lt(rule_of(b.subrange(314, 322)), rule_of(b.subrange(323, 331)))) by {
        reveal_with_fuel(find_byte, 8);
        reveal_with_fuel(bytes_lt, 6);
    }
    lemma_sorted_cons(b.subrange(314, 322), lines_from(b, 323));
    assert(lines_from(b, 305) == seq![b.subrange(305, 313)] + lines_from(b, 314)) by {
        reveal_with_fuel(find_byte, 10);
        assert(b[313] == 10u8);
    }
    assert(bytes_lt(rule_of(b.subrange(305, 313)), rule_of(b.subrange(314, 322)))) by {
        reveal_with_fuel(find_byte, 8);
        reveal_with_fuel(bytes_lt, 6);
    }
    lemma_sorted_cons(b.subrange(305, 313), lines_from(b, 314));
    assert(lines_from(b, 296) == seq![b.subrange(296, 304)] + lines_from(b, 305)) by {
        reveal_with_fuel(find_byte, 10);
        assert(b[304] == 10u8);
    }
    assert(bytes_lt(rule_of(b.subrange(296, 304)), rule_of(b.subrange(305, 313)))) by {
        reveal_with_fuel(find_byte, 8);
        reveal_with_fuel(bytes_lt, 6);
    }
    lemma_sorted_cons(b.subrange(296, 304), lines_from(b, 305));
    assert(lines_from(b, 287) == seq![b.subrange(287, 295)] + lines_from(b, 296)) by {
        reveal_with_fuel(find_byte, 10);
        assert(b[295] == 10u8);
    }
    assert(bytes_lt(rule_of(b.subrange(287, 295)), rule_of(b.subrange(296, 304)))) by {
        reveal_with_fuel(find_byte, 8);
        reveal_with_fuel(bytes_lt, 6);
    }
    lemma_sorted_cons(b.subrange(287, 295), lines_from(b, 296));
    assert(lines_from(b, 278) == seq![b.subrange(278, 286)] + lines_from(b, 287)) by {
        reveal_with_fuel(find_byte, 10);
        assert(b[286] == 10u8);
    }
    assert(bytes_lt(rule_of(b.subrange(278, 286)), rule_of(b.subrange(287, 295)))) by {
        reveal_with_fuel(find_byte, 8);
        reveal_with_fuel(bytes_lt, 6);
    }
    lemma_sorted_cons(b.subrange(278, 286), lines_from(b, 287));
    assert(lines_from(b, 269) == seq![b.subrange(269, 277)] + lines_from(b, 278)) by {
        reveal_with_fuel(find_byte, 10);
        assert(b[277] == 10u8);
    }
    assert(bytes_lt(rule_of(b.subrange(269, 277)), rule_of(b.subrange(278, 286)))) by {
        reveal_with_fuel(find_byte, 8);
        reveal_with_fuel(bytes_lt, 7);
    }
    lemma_sorted_cons(b.subrange(269, 277), lines_from(b, 278));
    assert(lines_from(b, 260) == seq![b.subrange(260, 268)] + lines_from(b, 269)) by {
        reveal_with_fuel(find_byte, 10);
        assert(b[268] == 10u8);
    }
    assert(bytes_lt(rule_of(b.subrange(260, 268)), rule_of(b.subrange(269, 277)))) by {
        reveal_with_fuel(find_byte, 8);
        reveal_with_fuel(bytes_lt, 6);
    }
    lemma_sorted_cons(b.subrange(260, 268), lines_from(b, 269));
}

/// Lines 24 to 31 of [`RULES`] are sorted, given that the lines after them are.
proof fn lemma_rules_from_24()
    requires
        sorted_rules(lines_from(RULES.spec_bytes(), 260)),
        lines_from(RULES.spec_bytes(), 260).len() > 0,
        lines_from(RULES.spec_bytes(), 260)[0] == RULES.spec_bytes().subrange(260, 268),
        lines_from(RULES.spec_bytes(), 260).len() == 127,
        lines_from(RULES.spec_bytes(), 260).last() == RULES.spec_bytes().subrange(1368, 1373),
    ensures
        sorted_rules(lines_from(RULES.spec_bytes(), 196)),
        lines_from(RULES.spec_bytes(), 196).len() > 0,
        lines_from(RULES.spec_bytes(), 196)[0] == RULES.spec_bytes().subrange(196, 203),
        lines_from(RULES.spec_bytes(), 196).len() == 135,
        lines_from(RULES.spec_bytes(), 196).last() == RULES.spec_bytes().subrange(1368, 1373),
        RULES.spec_bytes().len() == 1373,
{
    reveal_strlit("ac\tI\nac.be\tI\nac.in\tI\nac.jp\tI\nac.kr\tI\nac.nz\tI\nac.uk\tI\nai\tI\nak.us\tI\napp\tI\nappspot.com\tP\nasn.au\tI\nau\tI\nazurewebsites.net\tP\nbc.ca\tI\nbe\tI\nbiz\tI\nblogspot.com\tP\nbr\tI\nca\tI\nch\tI\ncloudfront.net\tP\ncn\tI\nco\tI\nco.in\tI\nco.jp\tI\nco.kr\tI\nco.nz\tI\nco.uk\tI\ncom\tI\ncom.ai\tI\ncom.au\tI\ncom.br\tI\ncom.cn\tI\ncom.co\tI\ncom.es\tI\ncom.hk\tI\ncom.mx\tI\ncom.pl\tI\ncom.sg\tI\ncom.tw\tI\nde\tI\ndev\tI\nedu\tI\nedu.au\tI\nedu.br\tI\nedu.cn\tI\nedu.co\tI\nedu.es\tI\nedu.hk\tI\nedu.in\tI\nedu.mx\tI\nedu.sg\tI\nedu.tw\tI\nes\tI\neu\tI\nfirebaseapp.com\tP\nfirm.in\tI\nfr\tI\ngen.in\tI\ngithub.io\tP\ngitlab.io\tP\ngo.jp\tI\ngo.kr\tI\ngob.es\tI\ngob.mx\tI\ngov\tI\ngov.au\tI\ngov.br\tI\ngov.cn\tI\ngov.co\tI\ngov.hk\tI\ngov.in\tI\ngov.sg\tI\ngov.tw\tI\ngov.uk\tI\ngovt.nz\tI\nherokuapp.com\tP\nhk\tI\nid.au\tI\nide.kyoto.jp\tI\nin\tI\nind.in\tI\ninfo\tI\nio\tI\nit\tI\njp\tI\nk12.ak.us\tI\nkr\tI\nkyoto.jp\tI\nltd.uk\tI\nly\tI\nme\tI\nme.uk\tI\nmx\tI\nne.jp\tI\nne.kr\tI\nnet\tI\nnet.ai\tI\nnet.au\tI\nnet.br\tI\nnet.cn\tI\nnet.co\tI\nnet.hk\tI\nnet.in\tI\nnet.mx\tI\nnet.nz\tI\nnet.pl\tI\nnet.sg\tI\nnet.tw\tI\nnet.uk\tI\nnetlify.app\tP\nnhs.uk\tI\nnl\tI\nno\tI\nnom.es\tI\nnz\tI\non.ca\tI\nor.jp\tI\nor.kr\tI\norg\tI\norg.ai\tI\norg.au\tI\norg.br\tI\norg.cn\tI\norg.co\tI\norg.es\tI\norg.hk\tI\norg.in\tI\norg.mx\tI\norg.nz\tI\norg.pl\tI\norg.sg\tI\norg.tw\tI\norg.uk\tI\npages.dev\tP\npl\tI\nplc.uk\tI\npolice.uk\tI\nqc.ca\tI\nre.kr\tI\nres.in\tI\ns3.amazonaws.com\tP\nschool.nz\tI\nse\tI\nsg\tI\ntv\tI\ntw\tI\nuk\tI\nuk.com\tP\nus\tI\nvercel.app\tP\nweb.app\tP\nworkers.dev\tP\nxn--55qx5d.cn\tI\nxn--fiqs8s\tI\nxn--io0a7i.cn\tI\nxn--od0alg.cn\tI\nxyz\tI");
    broadcast use vstd::string::is_ascii_spec_bytes;
    let b = RULES.spec_bytes();
    assert(vstd::string::is_ascii(RULES));
    assert(lines_from(b, 251) == seq![b.subrange(251, 259)] + lines_from(b, 260)) by {
        reveal_with_fuel(find_byte, 10);
        assert(b[259] == 10u8);
    }
    assert(bytes_lt(rule_of(b.subrange(251, 259)), rule_of(b.subrange(260, 268)))) by {
        reveal_with_fuel(find_byte, 8);
        reveal_with_fuel(bytes_lt, 6);
    }
    lemma_sorted_cons(b.subrange(251, 259), lines_from(b, 260));
    assert(lines_from(b, 242) == seq![b.subrange(242, 250)] + lines_from(b, 251)) by {
        reveal_with_fuel(find_byte, 10);
        assert(b[250] == 10u8);
    }
    assert(bytes_lt(rule_of(b.subrange(242, 250)), rule_of(b.subrange(251, 259)))) by {
        reveal_with_fuel(find_byte, 8);
        reveal_with_fuel(bytes_lt, 7);
    }
    lemma_sorted_cons(b.subrange(242, 250), lines_from(b, 251));
    assert(lines_from(b, 236) == seq![b.subrange(236, 241)] + lines_from(b, 242)) by {
        reveal_with_fuel(find_byte, 7);
        assert(b[241] == 10u8);
    }
    assert(bytes_lt(rule_of(b.subrange(236, 241)), rule_of(b.subrange(242, 250)))) by {
        reveal_with_fuel(find_byte, 8);
        reveal_with_fuel(bytes_lt, 5);
    }
    lemma_sorted_cons(b.subrange(236, 241), lines_from(b, 242));
    assert(lines_from(b, 228) == seq![b.subrange(228, 235)] + lines_from(b, 236)) by {
        reveal_with_fuel(find_byte, 9);
        assert(b[235] == 10u8);
    }
    assert(bytes_lt(rule_of(b.subrange(228, 235)), rule_of(b.subrange(236, 241)))) by {
        reveal_with_fuel(find_byte, 7);
        reveal_with_fuel(bytes_lt, 4);
    }
    lemma_sorted_cons(b.subrange(228, 235), lines_from(b, 236));
    assert(lines_from(b, 220) == seq![b.subrange(220, 227)] + lines_from(b, 228)) by {
        reveal_with_fuel(find_byte, 9);
        assert(b[227] == 10u8);
    }
    assert(bytes_lt(rule_of(b.subrange(220, 227)), rule_of(b.subrange(228, 235)))) by {
        reveal_with_fuel(find_byte, 7);
        reveal_with_fuel(bytes_lt, 5);
    }
    lemma_sorted_cons(b.subrange(220, 227), lines_from(b, 228));
    assert(lines_from(b, 212) == seq![b.subrange(212, 219)] + lines_from(b, 220)) by {
        reveal_with_fuel(find_byte, 9);
        assert(b[219] == 10u8);
    }
    assert(bytes_lt(rule_of(b.subrange(212, 219)), rule_of(b.subrange(220, 227)))) by {
        reveal_with_fuel(find_byte, 7);
        reveal_with_fuel(bytes_lt, 5);
    }
    lemma_sorted_cons(b.subrange(212, 219), lines_from(b, 220));
    assert(lines_from(b, 204) == seq![b.subrange(204, 211)] + lines_from(b, 212)) by {
        reveal_with_fuel(find_byte, 9);
        assert(b[211] == 10u8);
    }
    assert(bytes_lt(rule_of(b.subrange(204, 211)), rule_of(b.subrange(212, 219)))) by {
        reveal_with_fuel(find_byte, 7);
        reveal_with_fuel(bytes_lt, 5);
    }
    lemma_sorted_cons(b.subrange(204, 211), lines_from(b, 212));
    assert(lines_from(b, 196) == seq![b.subrange(196, 203)] + lines_from(b, 204)) by {
        reveal_with_fuel(find_byte, 9);
        assert(b[203] == 10u8);
    }
    assert(bytes_lt(rule_of(b.subrange(196, 203)), rule_of(b.subrange(204, 211)))) by {
        reveal_with_fuel(find_byte, 7);
        reveal_with_fuel(bytes_lt, 5);
    }
    lemma_sorted_cons(b.subrange(196, 203), lines_from(b, 204));
}

/// Lines 16 to 23 of [`RULES`] are sorted, given that the lines after them are.
proof fn lemma_rules_from_16()
    requires
        sorted_rules(lines_from(RULES.spec_bytes(), 196)),
        lines_from(RULES.spec_bytes(), 196).len() > 0,
        lines_from(RULES.spec_bytes(), 196)[0] == RULES.spec_bytes().subrange(196, 203),
        lines_from(RULES.spec_bytes(), 196).len() == 135,
        lines_from(RULES.spec_bytes(), 196).last() == RULES.spec_bytes().subrange(1368, 1373),
    ensures
        sorted_rules(lines_from(RULES.spec_bytes(), 133)),
        lines_from(RULES.spec_bytes(), 133).len() > 0,
        lines_from(RULES.spec_bytes(), 133)[0] == RULES.spec_bytes().subrange(133, 138),
        lines_from(RULES.spec_bytes(), 133).len() == 143,
        lines_from(RULES.spec_bytes(), 133).last() == RULES.spec_bytes().subrange(1368, 1373),
        RULES.spec_bytes().len() == 1373,
{
    reveal_strlit("ac\tI\nac.be\tI\nac.in\tI\nac.jp\tI\nac.kr\tI\nac.nz\tI\nac.uk\tI\nai\tI\nak.us\tI\napp\tI\nappspot.com\tP\nasn.au\tI\nau\tI\nazurewebsites.net\tP\nbc.ca\tI\nbe\tI\nbiz\tI\nblogspot.com\tP\nbr\tI\nca\tI\nch\tI\ncloudfront.net\tP\ncn\tI\nco\tI\nco.in\tI\nco.jp\tI\nco.kr\tI\nco.nz\tI\nco.uk\tI\ncom\tI\ncom.ai\tI\ncom.au\tI\ncom.br\tI\ncom.cn\tI\ncom.co\tI\ncom.es\tI\ncom.hk\tI\ncom.mx\tI\ncom.pl\tI\ncom.sg\tI\ncom.tw\tI\nde\tI\ndev\tI\nedu\tI\nedu.au\tI\nedu.br\tI\nedu.cn\tI\nedu.co\tI\nedu.es\tI\nedu.hk\tI\nedu.in\tI\nedu.mx\tI\nedu.sg\tI\nedu.tw\tI\nes\tI\neu\tI\nfirebaseapp.com\tP\nfirm.in\tI\nfr\tI\ngen.in\tI\ngithub.io\tP\ngitlab.io\tP\ngo.jp\tI\ngo.kr\tI\ngob.es\tI\ngob.mx\tI\ngov\tI\ngov.au\tI\ngov.br\tI\ngov.cn\tI\ngov.co\tI\ngov.hk\tI\ngov.in\tI\ngov.sg\tI\ngov.tw\tI\ngov.uk\tI\ngovt.nz\tI\nherokuapp.com\tP\nhk\tI\nid.au\tI\nide.kyoto.jp\tI\nin\tI\nind.in\tI\ninfo\tI\nio\tI\nit\tI\njp\tI\nk12.ak.us\tI\nkr\tI\nkyoto.jp\tI\nltd.uk\tI\nly\tI\nme\tI\nme.uk\tI\nmx\tI\nne.jp\tI\nne.kr\tI\nnet\tI\nnet.ai\tI\nnet.au\tI\nnet.br\tI\nnet.cn\tI\nnet.co\tI\nnet.hk\tI\nnet.in\tI\nnet.mx\tI\nnet.nz\tI\nnet.pl\tI\nnet.sg\tI\nnet.tw\tI\nnet.uk\tI\nnetlify.app\tP\nnhs.uk\tI\nnl\tI\nno\tI\nnom.es\tI\nnz\tI\non.ca\tI\nor.jp\tI\nor.kr\tI\norg\tI\norg.ai\tI\norg.au\tI\norg.br\tI\norg.cn\tI\norg.co\tI\norg.es\tI\norg.hk\tI\norg.in\tI\norg.mx\tI\norg.nz\tI\norg.pl\tI\norg.sg\tI\norg.tw\tI\norg.uk\tI\npages.dev\tP\npl\tI\nplc.uk\tI\npolice.uk\tI\nqc.ca\tI\nre.kr\tI\nres.in\tI\ns3.amazonaws.com\tP\nschool.nz\tI\nse\tI\nsg\tI\ntv\tI\ntw\tI\nuk\tI\nuk.com\tP\nus\tI\nvercel.app\tP\nweb.app\tP\nworkers.dev\tP\nxn--55qx5d.cn\tI\nxn--fiqs8s\tI\nxn--io0a7i.cn\tI\nxn--od0alg.cn\tI\nxyz\tI");
    broadcast use vstd::string::is_ascii_spec_bytes;
    let b = RULES.spec_bytes();
    assert(vstd::string::is_ascii(RULES));
    assert(lines_from(b, 191) == seq![b.subrange(191, 195)] + lines_from(b, 196)) by {
        reveal_with_fuel(find_byte, 6);
        assert(b[195] == 10u8);
    }
    assert(bytes_lt(rule_of(b.subrange(191, 195)), rule_of(b.subrange(196, 203)))) by {
        reveal_with_fuel(find_byte, 7);
        reveal_with_fuel(bytes_lt, 4);
    }
    lemma_sorted_cons(b.subrange(191, 195), lines_from(b, 196));
    assert(lines_from(b, 186) == seq![b.subrange(186, 190)] + lines_from(b, 191)) by {
        reveal_with_fuel(find_byte, 6);
        assert(b[190] == 10u8);
    }
    assert(bytes_lt(rule_of(b.subrange(186, 190)), rule_of(b.subrange(191, 195)))) by {
        reveal_with_fuel(find_byte, 4);
        reveal_with_fuel(bytes_lt, 3);
    }
    lemma_sorted_cons(b.subrange(186, 190), lines_from(b, 191));
    assert(lines_from(b, 169) == seq![b.subrange(169, 185)] + lines_from(b, 186)) by {
        reveal_with_fuel(find_byte, 18);
        assert(b[185] == 10u8);
    }
    assert(bytes_lt(rule_of(b.subrange(169, 185)), rule_of(b.subrange(186, 190)))) by {
        reveal_with_fuel(find_byte, 16);
        reveal_with_fuel(bytes_lt, 3);
    }
    lemma_sorted_cons(b.subrange(169, 185), lines_from(b, 186));
    assert(lines_from(b, 164) == seq![b.subrange(164, 168)] + lines_from(b, 169)) by {
        reveal_with_fuel(find_byte, 6);
        assert(b[168] == 10u8);
    }
    assert(bytes_lt(rule_of(b.subrange(164, 168)), rule_of(b.subrange(169, 185)))) by {
        reveal_with_fuel(find_byte, 16);
        reveal_with_fuel(bytes_lt, 3);
    }
    lemma_sorted_cons(b.subrange(164, 168), lines_from(b, 169));
    assert(lines_from(b, 159) == seq![b.subrange(159, 163)] + lines_from(b, 164)) by {
        reveal_with_fuel(find_byte, 6);
        assert(b[163] == 10u8);
    }
    assert(bytes_lt(rule_of(b.subrange(159, 163)), rule_of(b.subrange(164, 168)))) by {
        reveal_with_fuel(find_byte, 4);
        reveal_with_fuel(bytes_lt, 3);
    }
    lemma_sorted_cons(b.subrange(159, 163), lines_from(b, 164));
    assert(lines_from(b, 154) == seq![b.subrange(154, 158)] + lines_from(b, 159)) by {
        reveal_with_fuel(find_byte, 6);
        assert(b[158] == 10u8);
    }
    assert(bytes_lt(rule_of(b.subrange(154, 158)), rule_of(b.subrange(159, 163)))) by {
        reveal_with_fuel(find_byte, 4);
        reveal_with_fuel(bytes_lt, 2);
    }
    lemma_sorted_cons(b.subrange(154, 158), lines_from(b, 159));
    assert(lines_from(b, 139) == seq![b.subrange(139, 153)] + lines_from(b, 154)) by {
        reveal_with_fuel(find_byte, 16);
        assert(b[153] == 10u8);
    }
    assert(bytes_lt(rule_of(b.subrange(139, 153)), rule_of(b.subrange(154, 158)))) by {
        reveal_with_fuel(find_byte, 14);
        reveal_with_fuel(bytes_lt, 3);
    }
    lemma_sorted_cons(b.subrange(139, 153), lines_from(b, 154));
    assert(lines_from(b, 133) == seq![b.subrange(133, 138)] + lines_from(b, 139)) by {
        reveal_with_fuel(find_byte, 7);
        assert(b[138] == 10u8);
    }
    assert(bytes_lt(rule_of(b.subrange(133, 138)), rule_of(b.subrange(139, 153)))) by {
        reveal_with_fuel(find_byte, 14);
        reveal_with_fuel(bytes_lt, 3);
    }
    lemma_sorted_cons(b.subrange(133, 138), lines_from(b, 139));
}

/// Lines 8 to 15 of [`RULES`] are sorted, given that the lines after them are.
proof fn lemma_rules_from_8()
    requires
        sorted_rules(lines_from(RULES.spec_bytes(), 133)),
        lines_from(RULES.spec_bytes(), 133).len() > 0,
        lines_from(RULES.spec_bytes(), 133)[0] == RULES.spec_bytes().subrange(133, 138),
        lines_from(RULES.spec_bytes(), 133).len() == 143,
        lines_from(RULES.spec_bytes(), 133).last() == RULES.spec_bytes().subrange(1368, 1373),
    ensures
        sorted_rules(lines_from(RULES.spec_bytes(), 58)),
        lines_from(RULES.spec_bytes(), 58).len() > 0,
        lines_from(RULES.spec_bytes(), 58)[0] == RULES.spec_bytes().subrange(58, 65),
        lines_from(RULES.spec_bytes(), 58).len() == 151,
        lines_from(RULES.spec_bytes(), 58).last() == RULES.spec_bytes().subrange(1368, 1373),
        RULES.spec_bytes().len() == 1373,
{
    reveal_strlit("ac\tI\nac.be\tI\nac.in\tI\nac.jp\tI\nac.kr\tI\nac.nz\tI\nac.uk\tI\nai\tI\nak.us\tI\napp\tI\nappspot.com\tP\nasn.au\tI\nau\tI\nazurewebsites.net\tP\nbc.ca\tI\nbe\tI\nbiz\tI\nblogspot.com\tP\nbr\tI\nca\tI\nch\tI\ncloudfront.net\tP\ncn\tI\nco\tI\nco.in\tI\nco.jp\tI\nco.kr\tI\nco.nz\tI\nco.uk\tI\ncom\tI\ncom.ai\tI\ncom.au\tI\ncom.br\tI\ncom.cn\tI\ncom.co\tI\ncom.es\tI\ncom.hk\tI\ncom.mx\tI\ncom.pl\tI\ncom.sg\tI\ncom.tw\tI\nde\tI\ndev\tI\nedu\tI\nedu.au\tI\nedu.br\tI\nedu.cn\tI\nedu.co\tI\nedu.es\tI\nedu.hk\tI\nedu.in\tI\nedu.mx\tI\nedu.sg\tI\nedu.tw\tI\nes\tI\neu\tI\nfirebaseapp.com\tP\nfirm.in\tI\nfr\tI\ngen.in\tI\ngithub.io\tP\ngitlab.io\tP\ngo.jp\tI\ngo.kr\tI\ngob.es\tI\ngob.mx\tI\ngov\tI\ngov.au\tI\ngov.br\tI\ngov.cn\tI\ngov.co\tI\ngov.hk\tI\ngov.in\tI\ngov.sg\tI\ngov.tw\tI\ngov.uk\tI\ngovt.nz\tI\nherokuapp.com\tP\nhk\tI\nid.au\tI\nide.kyoto.jp\tI\nin\tI\nind.in\tI\ninfo\tI\nio\tI\nit\tI\njp\tI\nk12.ak.us\tI\nkr\tI\nkyoto.jp\tI\nltd.uk\tI\nly\tI\nme\tI\nme.uk\tI\nmx\tI\nne.jp\tI\nne.kr\tI\nnet\tI\nnet.ai\tI\nnet.au\tI\nnet.br\tI\nnet.cn\tI\nnet.co\tI\nnet.hk\tI\nnet.in\tI\nnet.mx\tI\nnet.nz\tI\nnet.pl\tI\nnet.sg\tI\nnet.tw\tI\nnet.uk\tI\nnetlify.app\tP\nnhs.uk\tI\nnl\tI\nno\tI\nnom.es\tI\nnz\tI\non.ca\tI\nor.jp\tI\nor.kr\tI\norg\tI\norg.ai\tI\norg.au\tI\norg.br\tI\norg.cn\tI\norg.co\tI\norg.es\tI\norg.hk\tI\norg.in\tI\norg.mx\tI\norg.nz\tI\norg.pl\tI\norg.sg\tI\norg.tw\tI\norg.uk\tI\npages.dev\tP\npl\tI\nplc.uk\tI\npolice.uk\tI\nqc.ca\tI\nre.kr\tI\nres.in\tI\ns3.amazonaws.com\tP\nschool.nz\tI\nse\tI\nsg\tI\ntv\tI\ntw\tI\nuk\tI\nuk.com\tP\nus\tI\nvercel.app\tP\nweb.app\tP\nworkers.dev\tP\nxn--55qx5d.cn\tI\nxn--fiqs8s\tI\nxn--io0a7i.cn\tI\nxn--od0alg.cn\tI\nxyz\tI");
    broadcast use vstd::string::is_ascii_spec_bytes;
    let b = RULES.spec_bytes();
    assert(vstd::string::is_ascii(RULES));
    assert(lines_from(b, 128) == seq![b.subrange(128, 132)] + lines_from(b, 133)) by {
        reveal_with_fuel(find_byte, 6);
        assert(b[132] == 10u8);
    }
    assert(bytes_lt(rule_of(b.subrange(128, 132)), rule_of(b.subrange(133, 138)))) by {
        reveal_with_fuel(find_byte, 5);
        reveal_with_fuel(bytes_lt, 3);
    }
    lemma_sorted_cons(b.subrange(128, 132), lines_from(b, 133));
    assert(lines_from(b, 120) == seq![b.subrange(120, 127)] + lines_from(b, 128)) by {
        reveal_with_fuel(find_byte, 9);
        assert(b[127] == 10u8);
    }
    assert(bytes_lt(rule_of(b.subrange(120, 127)), rule_of(b.subrange(128, 132)))) by {
        reveal_with_fuel(find_byte, 7);
        reveal_with_fuel(bytes_lt, 3);
    }
    lemma_sorted_cons(b.subrange(120, 127), lines_from(b, 128));
    assert(lines_from(b, 100) == seq![b.subrange(100, 119)] + lines_from(b, 120)) by {
        reveal_with_fuel(find_byte, 21);
        assert(b[119] == 10u8);
    }
    assert(bytes_lt(rule_of(b.subrange(100, 119)), rule_of(b.subrange(120, 127)))) by {
        reveal_with_fuel(find_byte, 19);
        reveal_with_fuel(bytes_lt, 2);
    }
    lemma_sorted_cons(b.subrange(100, 119), lines_from(b, 120));
    assert(lines_from(b, 95) == seq![b.subrange(95, 99)] + lines_from(b, 100)) by {
        reveal_with_fuel(find_byte, 6);
        assert(b[99] == 10u8);
    }
    assert(bytes_lt(rule_of(b.subrange(95, 99)), rule_of(b.subrange(100, 119)))) by {
        reveal_with_fuel(find_byte, 19);
        reveal_with_fuel(bytes_lt, 3);
    }
    lemma_sorted_cons(b.subrange(95, 99), lines_from(b, 100));
    assert(lines_from(b, 86) == seq![b.subrange(86, 94)] + lines_from(b, 95)) by {
        reveal_with_fuel(find_byte, 10);
        assert(b[94] == 10u8);
    }
    assert(bytes_lt(rule_of(b.subrange(86, 94)), rule_of(b.subrange(95, 99)))) by {
        reveal_with_fuel(find_byte, 8);
        reveal_with_fuel(bytes_lt, 3);
    }
    lemma_sorted_cons(b.subrange(86, 94), lines_from(b, 95));
    assert(lines_from(b, 72) == seq![b.subrange(72, 85)] + lines_from(b, 86)) by {
        reveal_with_fuel(find_byte, 15);
        assert(b[85] == 10u8);
    }
    assert(bytes_lt(rule_of(b.subrange(72, 85)), rule_of(b.subrange(86, 94)))) by {
        reveal_with_fuel(find_byte, 13);
        reveal_with_fuel(bytes_lt, 3);
    }
    lemma_sorted_cons(b.subrange(72, 85), lines_from(b, 86));
    assert(lines_from(b, 66) == seq![b.subrange(66, 71)] + lines_from(b, 72)) by {
        reveal_with_fuel(find_byte, 7);
        assert(b[71] == 10u8);
    }
    assert(bytes_lt(rule_of(b.subrange(66, 71)), rule_of(b.subrange(72, 85)))) by {
        reveal_with_fuel(find_byte, 13);
        reveal_with_fuel(bytes_lt, 5);
    }
    lemma_sorted_cons(b.subrange(66, 71), lines_from(b, 72));
    assert(lines_from(b, 58) == seq![b.subrange(58, 65)] + lines_from(b, 66)) by {
        reveal_with_fuel(find_byte, 9);
        assert(b[65] == 10u8);
    }
    assert(bytes_lt(rule_of(b.subrange(58, 65)), rule_of(b.subrange(66, 71)))) by {
        reveal_with_fuel(find_byte, 7);
        reveal_with_fuel(bytes_lt, 3);
    }
    lemma_sorted_cons(b.subrange(58, 65), lines_from(b, 66));
}

/// Lines 0 to 7 of [`RULES`] are sorted, given that the lines after them are.
proof fn lemma_rules_from_0()
    requires
        sorted_rules(lines_from(RULES.spec_bytes(), 58)),
        lines_from(RULES.spec_bytes(), 58).len() > 0,
        lines_from(RULES.spec_bytes(), 58)[0] == RULES.spec_bytes().subrange(58, 65),
        lines_from(RULES.spec_bytes(), 58).len() == 151,
        lines_from(RULES.spec_bytes(), 58).last() == RULES.spec_bytes().subrange(1368, 1373),
    ensures
        sorted_rules(lines_from(RULES.spec_bytes(), 0)),
        lines_from(RULES.spec_bytes(), 0).len() > 0,
        lines_from(RULES.spec_bytes(), 0)[0] == RULES.spec_bytes().subrange(0, 4),
        lines_from(RULES.spec_bytes(), 0).len() == 159,
        lines_from(RULES.spec_bytes(), 0).last() == RULES.spec_bytes().subrange(1368, 1373),
        RULES.spec_bytes().len() == 1373,
{
    reveal_strlit("ac\tI\nac.be\tI\nac.in\tI\nac.jp\tI\nac.kr\tI\nac.nz\tI\nac.uk\tI\nai\tI\nak.us\tI\napp\tI\nappspot.com\tP\nasn.au\tI\nau\tI\nazurewebsites.net\tP\nbc.ca\tI\nbe\tI\nbiz\tI\nblogspot.com\tP\nbr\tI\nca\tI\nch\tI\ncloudfront.net\tP\ncn\tI\nco\tI\nco.in\tI\nco.jp\tI\nco.kr\tI\nco.nz\tI\nco.uk\tI\ncom\tI\ncom.ai\tI\ncom.au\tI\ncom.br\tI\ncom.cn\tI\ncom.co\tI\ncom.es\tI\ncom.hk\tI\ncom.mx\tI\ncom.pl\tI\ncom.sg\tI\ncom.tw\tI\nde\tI\ndev\tI\nedu\tI\nedu.au\tI\nedu.br\tI\nedu.cn\tI\nedu.co\tI\nedu.es\tI\nedu.hk\tI\nedu.in\tI\nedu.mx\tI\nedu.sg\tI\nedu.tw\tI\nes\tI\neu\tI\nfirebaseapp.com\tP\nfirm.in\tI\nfr\tI\ngen.in\tI\ngithub.io\tP\ngitlab.io\tP\ngo.jp\tI\ngo.kr\tI\ngob.es\tI\ngob.mx\tI\ngov\tI\ngov.au\tI\ngov.br\tI\ngov.cn\tI\ngov.co\tI\ngov.hk\tI\ngov.in\tI\ngov.sg\tI\ngov.tw\tI\ngov.uk\tI\ngovt.nz\tI\nherokuapp.com\tP\nhk\tI\nid.au\tI\nide.kyoto.jp\tI\nin\tI\nind.in\tI\ninfo\tI\nio\tI\nit\tI\njp\tI\nk12.ak.us\tI\nkr\tI\nkyoto.jp\tI\nltd.uk\tI\nly\tI\nme\tI\nme.uk\tI\nmx\tI\nne.jp\tI\nne.kr\tI\nnet\tI\nnet.ai\tI\nnet.au\tI\nnet.br\tI\nnet.cn\tI\nnet.co\tI\nnet.hk\tI\nnet.in\tI\nnet.mx\tI\nnet.nz\tI\nnet.pl\tI\nnet.sg\tI\nnet.tw\tI\nnet.uk\tI\nnetlify.app\tP\nnhs.uk\tI\nnl\tI\nno\tI\nnom.es\tI\nnz\tI\non.ca\tI\nor.jp\tI\nor.kr\tI\norg\tI\norg.ai\tI\norg.au\tI\norg.br\tI\norg.cn\tI\norg.co\tI\norg.es\tI\norg.hk\tI\norg.in\tI\norg.mx\tI\norg.nz\tI\norg.pl\tI\norg.sg\tI\norg.tw\tI\norg.uk\tI\npages.dev\tP\npl\tI\nplc.uk\tI\npolice.uk\tI\nqc.ca\tI\nre.kr\tI\nres.in\tI\ns3.amazonaws.com\tP\nschool.nz\tI\nse\tI\nsg\tI\ntv\tI\ntw\tI\nuk\tI\nuk.com\tP\nus\tI\nvercel.app\tP\nweb.app\tP\nworkers.dev\tP\nxn--55qx5d.cn\tI\nxn--fiqs8s\tI\nxn--io0a7i.cn\tI\nxn--od0alg.cn\tI\nxyz\tI");
    broadcast use vstd::string::is_ascii_spec_bytes;
    let b = RULES.spec_bytes();
    assert(vstd::string::is_ascii(RULES));
    assert(lines_from(b, 53) == seq![b.subrange(53, 57)] + lines_from(b, 58)) by {
        reveal_with_fuel(find_byte, 6);
        assert(b[57] == 10u8);
    }
    assert(bytes_lt(rule_of(b.subrange(53, 57)), rule_of(b.subrange(58, 65)))) by {
        reveal_with_fuel(find_byte, 7);
        reveal_with_fuel(bytes_lt, 3);
    }
    lemma_sorted_cons(b.subrange(53, 57), lines_from(b, 58));
    assert(lines_from(b, 45) == seq![b.subrange(45, 52)] + lines_from(b, 53)) by {
        reveal_with_fuel(find_byte, 9);
        assert(b[52] == 10u8);
    }
    assert(bytes_lt(rule_of(b.subrange(45, 52)), rule_of(b.subrange(53, 57)))) by {
        reveal_with_fuel(find_byte, 7);
        reveal_with_fuel(bytes_lt, 3);
    }
    lemma_sorted_cons(b.subrange(45, 52), lines_from(b, 53));
    assert(lines_from(b, 37) == seq![b.subrange(37, 44)] + lines_from(b, 45)) by {
        reveal_with_fuel(find_byte, 9);
        assert(b[44] == 10u8);
    }
    assert(bytes_lt(rule_of(b.subrange(37, 44)), rule_of(b.subrange(45, 52)))) by {
        reveal_with_fuel(find_byte, 7);
        reveal_with_fuel(bytes_lt, 5);
    }
    lemma_sorted_cons(b.subrange(37, 44), lines_from(b, 45));
    assert(lines_from(b, 29) == seq![b.subrange(29, 36)] + lines_from(b, 37)) by {
        reveal_with_fuel(find_byte, 9);
        assert(b[36] == 10u8);
    }
    assert(bytes_lt(rule_of(b.subrange(29, 36)), rule_of(b.subrange(37, 44)))) by {
        reveal_with_fuel(find_byte, 7);
        reveal_with_fuel(bytes_lt, 5);
    }
    lemma_sorted_cons(b.subrange(29, 36), lines_from(b, 37));
    assert(lines_from(b, 21) == seq![b.subrange(21, 28)] + lines_from(b, 29)) by {
        reveal_with_fuel(find_byte, 9);
        assert(b[28] == 10u8);
    }
    assert(bytes_lt(rule_of(b.subrange(21, 28)), rule_of(b.subrange(29, 36)))) by {
        reveal_with_fuel(find_byte, 7);
        reveal_with_fuel(bytes_lt, 5);
    }
    lemma_sorted_cons(b.subrange(21, 28), lines_from(b, 29));
    assert(lines_from(b, 13) == seq![b.subrange(13, 20)] + lines_from(b, 21)) by {
        reveal_with_fuel(find_byte, 9);
        assert(b[20] == 10u8);
    }
    assert(bytes_lt(rule_of(b.subrange(13, 20)), rule_of(b.subrange(21, 28)))) by {
        reveal_with_fuel(find_byte, 7);
        reveal_with_fuel(bytes_lt, 5);
    }
    lemma_sorted_cons(b.subrange(13, 20), lines_from(b, 21));
    assert(lines_from(b, 5) == seq![b.subrange(5, 12)] + lines_from(b, 13)) by {
        reveal_with_fuel(find_byte, 9);
        assert(b[12] == 10u8);
    }
    assert(bytes_lt(rule_of(b.subrange(5, 12)), rule_of(b.subrange(13, 20)))) by {
        reveal_with_fuel(find_byte, 7);
        reveal_with_fuel(bytes_lt, 5);
    }
    lemma_sorted_cons(b.subrange(5, 12), lines_from(b, 13));
    assert(lines_from(b, 0) == seq![b.subrange(0, 4)] + lines_from(b, 5)) by {
        reveal_with_fuel(find_byte, 6);
        assert(b[4] == 10u8);
    }
    assert(bytes_lt(rule_of(b.subrange(0, 4)), rule_of(b.subrange(5, 12)))) by {
        reveal_with_fuel(find_byte, 7);
        reveal_with_fuel(bytes_lt, 4);
    }
    lemma_sorted_cons(b.subrange(0, 4), lines_from(b, 5));
}

/// [`RULES`] is a well-formed block of 159 lines.
pub proof fn lemma_rules_wf()
    ensures
        block_wf(RULES.spec_bytes()),
        RULES.spec_bytes().len() == 1373,
        block_lines(RULES.spec_bytes()).len() == 159,
        rule_of(block_lines(RULES.spec_bytes())[0]) == seq![97u8, 99u8],
        rule_of(block_lines(RULES.spec_bytes()).last()) == seq![120u8, 121u8, 122u8],
{
    lemma_rules_from_152();
    lemma_rules_from_144();
    lemma_rules_from_136();
    lemma_rules_from_128();
    lemma_rules_from_120();
    lemma_rules_from_112();
    lemma_rules_from_104();
    lemma_rules_from_96();
    lemma_rules_from_88();
    lemma_rules_from_80();
    lemma_rules_from_72();
    lemma_rules_from_64();
    lemma_rules_from_56();
    lemma_rules_from_48();
    lemma_rules_from_40();
    lemma_rules_from_32();
    lemma_rules_from_24();
    lemma_rules_from_16();
    lemma_rules_from_8();
    lemma_rules_from_0();
    let b = RULES.spec_bytes();
    reveal_strlit("ac\tI\nac.be\tI\nac.in\tI\nac.jp\tI\nac.kr\tI\nac.nz\tI\nac.uk\tI\nai\tI\nak.us\tI\napp\tI\nappspot.com\tP\nasn.au\tI\nau\tI\nazurewebsites.net\tP\nbc.ca\tI\nbe\tI\nbiz\tI\nblogspot.com\tP\nbr\tI\nca\tI\nch\tI\ncloudfront.net\tP\ncn\tI\nco\tI\nco.in\tI\nco.jp\tI\nco.kr\tI\nco.nz\tI\nco.uk\tI\ncom\tI\ncom.ai\tI\ncom.au\tI\ncom.br\tI\ncom.cn\tI\ncom.co\tI\ncom.es\tI\ncom.hk\tI\ncom.mx\tI\ncom.pl\tI\ncom.sg\tI\ncom.tw\tI\nde\tI\ndev\tI\nedu\tI\nedu.au\tI\nedu.br\tI\nedu.cn\tI\nedu.co\tI\nedu.es\tI\nedu.hk\tI\nedu.in\tI\nedu.mx\tI\nedu.sg\tI\nedu.tw\tI\nes\tI\neu\tI\nfirebaseapp.com\tP\nfirm.in\tI\nfr\tI\ngen.in\tI\ngithub.io\tP\ngitlab.io\tP\ngo.jp\tI\ngo.kr\tI\ngob.es\tI\ngob.mx\tI\ngov\tI\ngov.au\tI\ngov.br\tI\ngov.cn\tI\ngov.co\tI\ngov.hk\tI\ngov.in\tI\ngov.sg\tI\ngov.tw\tI\ngov.uk\tI\ngovt.nz\tI\nherokuapp.com\tP\nhk\tI\nid.au\tI\nide.kyoto.jp\tI\nin\tI\nind.in\tI\ninfo\tI\nio\tI\nit\tI\njp\tI\nk12.ak.us\tI\nkr\tI\nkyoto.jp\tI\nltd.uk\tI\nly\tI\nme\tI\nme.uk\tI\nmx\tI\nne.jp\tI\nne.kr\tI\nnet\tI\nnet.ai\tI\nnet.au\tI\nnet.br\tI\nnet.cn\tI\nnet.co\tI\nnet.hk\tI\nnet.in\tI\nnet.mx\tI\nnet.nz\tI\nnet.pl\tI\nnet.sg\tI\nnet.tw\tI\nnet.uk\tI\nnetlify.app\tP\nnhs.uk\tI\nnl\tI\nno\tI\nnom.es\tI\nnz\tI\non.ca\tI\nor.jp\tI\nor.kr\tI\norg\tI\norg.ai\tI\norg.au\tI\norg.br\tI\norg.cn\tI\norg.co\tI\norg.es\tI\norg.hk\tI\norg.in\tI\norg.mx\tI\norg.nz\tI\norg.pl\tI\norg.sg\tI\norg.tw\tI\norg.uk\tI\npages.dev\tP\npl\tI\nplc.uk\tI\npolice.uk\tI\nqc.ca\tI\nre.kr\tI\nres.in\tI\ns3.amazonaws.com\tP\nschool.nz\tI\nse\tI\nsg\tI\ntv\tI\ntw\tI\nuk\tI\nuk.com\tP\nus\tI\nvercel.app\tP\nweb.app\tP\nworkers.dev\tP\nxn--55qx5d.cn\tI\nxn--fiqs8s\tI\nxn--io0a7i.cn\tI\nxn--od0alg.cn\tI\nxyz\tI");
    broadcast use vstd::string::is_ascii_spec_bytes;
    assert(vstd::string::is_ascii(RULES));
    assert(rule_of(b.subrange(0, 4)) == b.subrange(0, 2)) by {
        reveal_with_fuel(find_byte, 4);
    }
    assert(rule_of(b.subrange(1368, 1373)) == b.subrange(1368, 1371)) by {
        reveal_with_fuel(find_byte, 5);
    }
}

/// Lines 0 to 4 of [`WILDCARDS`] are sorted.
proof fn lemma_wildcards_from_0()
    ensures
        sorted_rules(lines_from(WILDCARDS.spec_bytes(), 0)),
        lines_from(WILDCARDS.spec_bytes(), 0).len() > 0,
        lines_from(WILDCARDS.spec_bytes(), 0)[0] == WILDCARDS.spec_bytes().subrange(0, 4),
        lines_from(WILDCARDS.spec_bytes(), 0).len() == 5,
        lines_from(WILDCARDS.spec_bytes(), 0).last() == WILDCARDS.spec_bytes().subrange(34, 42),
        WILDCARDS.spec_bytes().len() == 42,
{
    reveal_strlit("ck\tI\nkawasaki.jp\tI\nkobe.jp\tI\nmm\tI\nsch.uk\tI");
    broadcast use vstd::string::is_ascii_spec_bytes;
    let b = WILDCARDS.spec_bytes();
    assert(vstd::string::is_ascii(WILDCARDS));
    assert(lines_from(b, 34) == seq![b.subrange(34, 42)]) by {
        reveal_with_fuel(find_byte, 10);
    }
    lemma_sorted_single(b.subrange(34, 42));
    assert(lines_from(b, 29) == seq![b.subrange(29, 33)] + lines_from(b, 34)) by {
        reveal_with_fuel(find_byte, 6);
        assert(b[33] == 10u8);
    }
    assert(bytes_lt(rule_of(b.subrange(29, 33)), rule_of(b.subrange(34, 42)))) by {
        reveal_with_fuel(find_byte, 8);
        reveal_with_fuel(bytes_lt, 2);
    }
    lemma_sorted_cons(b.subrange(29, 33), lines_from(b, 34));
    assert(lines_from(b, 19) == seq![b.subrange(19, 28)] + lines_from(b, 29)) by {
        reveal_with_fuel(find_byte, 11);
        assert(b[28] == 10u8);
    }
    assert(bytes_lt(rule_of(b.subrange(19, 28)), rule_of(b.subrange(29, 33)))) by {
        reveal_with_fuel(find_byte, 9);
        reveal_with_fuel(bytes_lt, 2);
    }
    lemma_sorted_cons(b.subrange(19, 28), lines_from(b, 29));
    assert(lines_from(b, 5) == seq![b.subrange(5, 18)] + lines_from(b, 19)) by {
        reveal_with_fuel(find_byte, 15);
        assert(b[18] == 10u8);
    }
    assert(bytes_lt(rule_of(b.subrange(5, 18)), rule_of(b.subrange(19, 28)))) by {
        reveal_with_fuel(find_byte, 13);
        reveal_with_fuel(bytes_lt, 3);
    }
    lemma_sorted_cons(b.subrange(5, 18), lines_from(b, 19));
    assert(lines_from(b, 0) == seq![b.subrange(0, 4)] + lines_from(b, 5)) by {
        reveal_with_fuel(find_byte, 6);
        assert(b[4] == 10u8);
    }
    assert(bytes_lt(rule_of(b.subrange(0, 4)), rule_of(b.subrange(5, 18)))) by {
        reveal_with_fuel(find_byte, 13);
        reveal_with_fuel(bytes_lt, 2);
    }
    lemma_sorted_cons(b.subrange(0, 4), lines_from(b, 5));
}

/// [`WILDCARDS`] is a well-formed block of 5 lines.
pub proof fn lemma_wildcards_wf()
    ensures
        block_wf(WILDCARDS.spec_bytes()),
        WILDCARDS.spec_bytes().len() == 42,
        block_lines(WILDCARDS.spec_bytes()).len() == 5,
        rule_of(block_lines(WILDCARDS.spec_bytes())[0]) == seq![99u8, 107u8],
        rule_of(block_lines(WILDCARDS.spec_bytes()).last()) == seq![115u8, 99u8, 104u8, 46u8, 117u8, 107u8],
{
    lemma_wildcards_from_0();
    let b = WILDCARDS.spec_bytes();
    reveal_strlit("ck\tI\nkawasaki.jp\tI\nkobe.jp\tI\nmm\tI\nsch.uk\tI");
    broadcast use vstd::string::is_ascii_spec_bytes;
    assert(vstd::string::is_ascii(WILDCARDS));
    assert(rule_of(b.subrange(0, 4)) == b.subrange(0, 2)) by {
        reveal_with_fuel(find_byte, 4);
    }
    assert(rule_of(b.subrange(34, 42)) == b.subrange(34, 40)) by {
        reveal_with_fuel(find_byte, 8);
    }
}

/// Lines 0 to 2 of [`EXCEPTIONS`] are sorted.
proof fn lemma_exceptions_from_0()
    ensures
        sorted_rules(lines_from(EXCEPTIONS.spec_bytes(), 0)),
        lines_from(EXCEPTIONS.spec_bytes(), 0).len() > 0,
        lines_from(EXCEPTIONS.spec_bytes(), 0)[0] == EXCEPTIONS.spec_bytes().subrange(0, 18),
        lines_from(EXCEPTIONS.spec_bytes(), 0).len() == 3,
        lines_from(EXCEPTIONS.spec_bytes(), 0).last() == EXCEPTIONS.spec_bytes().subrange(34, 42),
        EXCEPTIONS.spec_bytes().len() == 42,
{
    reveal_strlit("city.kawasaki.jp\tI\ncity.kobe.jp\tI\nwww.ck\tI");
    broadcast use vstd::string::is_ascii_spec_bytes;
    let b = EXCEPTIONS.spec_bytes();
    assert(vstd::string::is_ascii(EXCEPTIONS));
    assert(lines_from(b, 34) == seq![b.subrange(34, 42)]) by {
        reveal_with_fuel(find_byte, 10);
    }
    lemma_sorted_single(b.subrange(34, 42));
    assert(lines_from(b, 19) == seq![b.subrange(19, 33)] + lines_from(b, 34)) by {
        reveal_with_fuel(find_byte, 16);
        assert(b[33] == 10u8);
    }
    assert(bytes_lt(rule_of(b.subrange(19, 33)), rule_of(b.subrange(34, 42)))) by {
        reveal_with_fuel(find_byte, 14);
        reveal_with_fuel(bytes_lt, 2);
    }
    lemma_sorted_cons(b.subrange(19, 33), lines_from(b, 34));
    assert(lines_from(b, 0) == seq![b.subrange(0, 18)] + lines_from(b, 19)) by {
        reveal_with_fuel(find_byte, 20);
        assert(b[18] == 10u8);
    }
    assert(bytes_lt(rule_of(b.subrange(0, 18)), rule_of(b.subrange(19, 33)))) by {
        reveal_with_fuel(find_byte, 18);
        reveal_with_fuel(bytes_lt, 8);
    }
    lemma_sorted_cons(b.subrange(0, 18), lines_from(b, 19));
}

/// [`EXCEPTIONS`] is a well-formed block of 3 lines.
pub proof fn lemma_exceptions_wf()
    ensures
        block_wf(EXCEPTIONS.spec_bytes()),
        EXCEPTIONS.spec_bytes().len() == 42,
        block_lines(EXCEPTIONS.spec_bytes()).len() == 3,
        rule_of(block_lines(EXCEPTIONS.spec_bytes())[0]) == seq![99u8, 105u8, 116u8, 121u8, 46u8, 107u8, 97u8, 119u8, 97u8, 115u8, 97u8, 107u8, 105u8, 46u8, 106u8, 112u8],
        rule_of(block_lines(EXCEPTIONS.spec_bytes()).last()) == seq![119u8, 119u8, 119u8, 46u8, 99u8, 107u8],
        rules_contain(EXCEPTIONS.spec_bytes(), 46u8),
{
    lemma_exceptions_from_0();
    let b = EXCEPTIONS.spec_bytes();
    reveal_strlit("city.kawasaki.jp\tI\ncity.kobe.jp\tI\nwww.ck\tI");
    broadcast use vstd::string::is_ascii_spec_bytes;
    assert(vstd::string::is_ascii(EXCEPTIONS));
    assert(rule_of(b.subrange(0, 18)) == b.subrange(0, 16)) by {
        reveal_with_fuel(find_byte, 18);
    }
    assert(rule_of(b.subrange(34, 42)) == b.subrange(34, 40)) by {
        reveal_with_fuel(find_byte, 8);
    }
    assert(lines_from(b, 0) == seq![b.subrange(0, 18)] + lines_from(b, 19)) by {
        reveal_with_fuel(find_byte, 20);
        assert(b[18] == 10u8);
    }
    assert(lines_from(b, 19) == seq![b.subrange(19, 33)] + lines_from(b, 34)) by {
        reveal_with_fuel(find_byte, 16);
        assert(b[33] == 10u8);
    }
    assert(lines_from(b, 34) == seq![b.subrange(34, 42)]) by {
        reveal_with_fuel(find_byte, 10);
    }
    let ls = block_lines(b);
    assert forall|k: int| 0 <= k < ls.len() implies rule_of(#[trigger] ls[k]).contains(46u8) by {
        if k == 0 {
            assert(ls[k] == b.subrange(0, 18));
            reveal_with_fuel(find_byte, 20);
            assert(rule_of(ls[k])[4] == 46u8);
        } else if k == 1 {
            assert(ls[k] == b.subrange(19, 33));
            reveal_with_fuel(find_byte, 16);
            assert(rule_of(ls[k])[4] == 46u8);
        } else if k == 2 {
            assert(ls[k] == b.subrange(34, 42));
            reveal_with_fuel(find_byte, 10);
            assert(rule_of(ls[k])[3] == 46u8);
        }
    }
}

/// Each line of an embedded block is found by its rule, with its section.
pub proof fn law_embedded_blocks_find_each_line(block: &str, k: int)
    requires
        block == RULES || block == WILDCARDS || block == EXCEPTIONS,
        0 <= k < block_lines(block.spec_bytes()).len(),
    ensures
        block_wf(block.spec_bytes()),
        block_lookup(block.spec_bytes(), rule_of(block_lines(block.spec_bytes())[k])) == Some(
            type_of(block_lines(block.spec_bytes())[k]),
        ),
{
    lemma_rules_wf();
    lemma_wildcards_wf();
    lemma_exceptions_wf();
    law_block_lookup_finds_each_line(block.spec_bytes(), k);
}

/// A key that starts with a byte below `a`, or with `z` or above, is in no
/// embedded block: every embedded rule starts with a letter from `a` to `y`.
pub proof fn law_embedded_blocks_outside(block: &str, key: Seq<u8>)
    requires
        block == RULES || block == WILDCARDS || block == EXCEPTIONS,
        key.len() > 0,
        key[0] < 97 || key[0] >= 122,
    ensures
        block_lookup(block.spec_bytes(), key) is None,
{
    lemma_rules_wf();
    lemma_wildcards_wf();
    lemma_exceptions_wf();
    let ls = block_lines(block.spec_bytes());
    let first = rule_of(ls[0]);
    let last = rule_of(ls.last());
    assert(first[0] >= 97 && last[0] < 122);
    if key[0] < 97 {
        assert(bytes_lt(key, first));
    } else {
        assert(bytes_lt(last, key));
    }
    law_block_lookup_outside(block.spec_bytes(), key);
}

} // verus!
