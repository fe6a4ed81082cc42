//! The group generator is a quadratic non-residue: 5^((r - 1) / 2) = -1 (mod r).
//!
//! The exponent is reached from 1 by one squaring per bit, with a further factor of five
//! for each bit that is set. Each line of the chain below is one such step: it names the
//! power that it starts from and the power that it reaches.
use vstd::arithmetic::div_mod::*;
use vstd::arithmetic::power::*;
use vstd::prelude::*;

use crate::field;
use crate::field::GENERATOR;

verus! {

/// One squaring: from the power with exponent `e` to the one with exponent `2 * e`.
proof fn squared(e: nat, from: int, to: int) -> (next: nat)
    requires
        pow(GENERATOR as int, e) % field::modulus() == from,
        (from * from) % 0x30644e72e131a029b85045b68181585d2833e84879b9709143e1f593f0000001int == to,
    ensures
        next == 2 * e,
        pow(GENERATOR as int, next) % field::modulus() == to,
{
    let g = GENERATOR as int;
    lemma_pow_adds(g, e, e);
    lemma_mul_mod_noop(pow(g, e), pow(g, e), field::modulus());
    2 * e
}

/// One squaring and one further factor: from the exponent `e` to `2 * e + 1`.
proof fn squared_times(e: nat, from: int, to: int) -> (next: nat)
    requires
        pow(GENERATOR as int, e) % field::modulus() == from,
        (5 * (from * from)) % 0x30644e72e131a029b85045b68181585d2833e84879b9709143e1f593f0000001int == to,
    ensures
        next == 2 * e + 1,
        pow(GENERATOR as int, next) % field::modulus() == to,
{
    let g = GENERATOR as int;
    lemma_pow_adds(g, e, e);
    lemma_pow_adds(g, 1, 2 * e);
    lemma_pow1(g);
    lemma_mul_mod_noop(pow(g, e), pow(g, e), field::modulus());
    lemma_mul_mod_noop_right(g, pow(g, 2 * e), field::modulus());
    lemma_mul_mod_noop_right(g, from * from, field::modulus());
    2 * e + 1
}

proof fn powers_1() -> (e: nat)
    ensures
        e == 0x18322nat,
        pow(GENERATOR as int, e) % field::modulus() == 0x6e3bf9d1c7a977d11ec9e32a854e918e70e9e24cdb0423142d503be5e5b5c32int,
{
    lemma_pow1(5);
    let e = 1nat;
    let e = squared_times(e, 5int, 125int);
    let e = squared(e, 125int, 0x3d09int);
    let e = squared(e, 0x3d09int, 0xe8d4a51int);
    let e = squared(e, 0xe8d4a51int, 0xd3c21bcecceda1int);
    let e = squared(e, 0xd3c21bcecceda1int, 0xaf298d050e4395d69670b12b7f41int);
    let e = squared(e, 0xaf298d050e4395d69670b12b7f41int, 0x77d9d58b62cd8a5162e7f4a779f5080f1c46d01ae478b23be1178e81int);
    let e = squared_times(e, 0x77d9d58b62cd8a5162e7f4a779f5080f1c46d01ae478b23be1178e81int, 0x69d5f4f1f965320f7b5312b82588b34808e89477a35002457e24396fee4023eint);
    let e = squared_times(e, 0x69d5f4f1f965320f7b5312b82588b34808e89477a35002457e24396fee4023eint, 0x1416d76686754fb37ac1e4f993008fbd02512ea654e8750c2034ac95714ddf69int);
    let e = squared(e, 0x1416d76686754fb37ac1e4f993008fbd02512ea654e8750c2034ac95714ddf69int, 0x10ec943d18e2346835b052fc765a1b3a0db3a8fecaa65aef28e72f84be2ede10int);
    let e = squared(e, 0x10ec943d18e2346835b052fc765a1b3a0db3a8fecaa65aef28e72f84be2ede10int, 0x165f0aa93c01d51ba9a7cdf3c08d9dbc6edf9c4484a174f543e3ce1fe10d7208int);
    let e = squared_times(e, 0x165f0aa93c01d51ba9a7cdf3c08d9dbc6edf9c4484a174f543e3ce1fe10d7208int, 0x6b9e041dbefab5132069f4ffba2e410337d23d986c0f673211d512671394967int);
    let e = squared(e, 0x6b9e041dbefab5132069f4ffba2e410337d23d986c0f673211d512671394967int, 0xfbefe7255559cc7c467cf3a70b9197eeb391ad0c2f1c1e0b197f20a243e9bd5int);
    let e = squared(e, 0xfbefe7255559cc7c467cf3a70b9197eeb391ad0c2f1c1e0b197f20a243e9bd5int, 0x3616ccc494f11199a7c44a036d893bc50c3a4160468a996c794ed113bf0be15int);
    let e = squared(e, 0x3616ccc494f11199a7c44a036d893bc50c3a4160468a996c794ed113bf0be15int, 0x1b2ffd05036c290fd6ed9c427e2f0e1898fd79847748ebb8e37bbac79f16ad91int);
    let e = squared_times(e, 0x1b2ffd05036c290fd6ed9c427e2f0e1898fd79847748ebb8e37bbac79f16ad91int, 0xa2f362f066662f0347a524d9b908aad33c82bd6dd2c139b55d8629d41a1ef55int);
    let e = squared(e, 0xa2f362f066662f0347a524d9b908aad33c82bd6dd2c139b55d8629d41a1ef55int, 0x6e3bf9d1c7a977d11ec9e32a854e918e70e9e24cdb0423142d503be5e5b5c32int);
    e
}

proof fn powers_2() -> (e: nat)
    ensures
        e == 0x183227397nat,
        pow(GENERATOR as int, e) % field::modulus() == 0x173fcebb55ea62a07174edf7629672949196542e04313acd8ae74aea9170b32cint,
{
    let e = powers_1();
    let e = squared(e, 0x6e3bf9d1c7a977d11ec9e32a854e918e70e9e24cdb0423142d503be5e5b5c32int, 0x1b3247c8f5b978f6de547289b64f97c9cc509f8ca9172ca9ee8935fb32baf892int);
    let e = squared_times(e, 0x1b3247c8f5b978f6de547289b64f97c9cc509f8ca9172ca9ee8935fb32baf892int, 0x1b6182ec4c5764127623cac31a4eea3739a3403626582b649340a1b736e8deaaint);
    let e = squared_times(e, 0x1b6182ec4c5764127623cac31a4eea3739a3403626582b649340a1b736e8deaaint, 0x1e6f62b1aeacb21c0c8c25dcb835c310facf4e2030b66eb802bac5e516ca207dint);
    let e = squared_times(e, 0x1e6f62b1aeacb21c0c8c25dcb835c310facf4e2030b66eb802bac5e516ca207dint, 0x1530b43261a57393f6d7a06e9cd88eded7bd44e2ff1f0a5fef9010defd8b928cint);
    let e = squared(e, 0x1530b43261a57393f6d7a06e9cd88eded7bd44e2ff1f0a5fef9010defd8b928cint, 0x1a7077c3aad2ccf0fcb6a901368f4a65bccdf87265710959549c8d1cf334903bint);
    let e = squared(e, 0x1a7077c3aad2ccf0fcb6a901368f4a65bccdf87265710959549c8d1cf334903bint, 0x1d693ec19948b6efd1f082c9e937e2edd22b5940684e71dd68e68fdfa4ac346aint);
    let e = squared_times(e, 0x1d693ec19948b6efd1f082c9e937e2edd22b5940684e71dd68e68fdfa4ac346aint, 0x2c4eae73eaafd4107bfb13a799cf302457d275fb5b4d1d3c49451db7e1ee7676int);
    let e = squared_times(e, 0x2c4eae73eaafd4107bfb13a799cf302457d275fb5b4d1d3c49451db7e1ee7676int, 0x124d2a03ebeaf54e7e8f296eba91df970bd5887220daf95fe91cd1cdfa701c3int);
    let e = squared_times(e, 0x124d2a03ebeaf54e7e8f296eba91df970bd5887220daf95fe91cd1cdfa701c3int, 0xe00c868025ef5d93adfbe23f21f0724e0799615175ae14797ab10c6cde0debeint);
    let e = squared(e, 0xe00c868025ef5d93adfbe23f21f0724e0799615175ae14797ab10c6cde0debeint, 0x1100a241fab52e3b86052371a964297d51d8b593b9809caba66dc0cf806a71e1int);
    let e = squared(e, 0x1100a241fab52e3b86052371a964297d51d8b593b9809caba66dc0cf806a71e1int, 0x2ab5dac0d05b99cb67f72b3bb73b98df0e40cc8906d4c5aed9f58ea941b60fc0int);
    let e = squared_times(e, 0x2ab5dac0d05b99cb67f72b3bb73b98df0e40cc8906d4c5aed9f58ea941b60fc0int, 0x20362da390b3bf0fcdfd5f2e5602f691967036f0559ab76b6e889f0eb78b6e41int);
    let e = squared(e, 0x20362da390b3bf0fcdfd5f2e5602f691967036f0559ab76b6e889f0eb78b6e41int, 0x2b4844fd23dfb5f5e9f92a2567e28ad2a4a852ed225311010cf29e890a36f75eint);
    let e = squared_times(e, 0x2b4844fd23dfb5f5e9f92a2567e28ad2a4a852ed225311010cf29e890a36f75eint, 0x1b70ed169070aafddbe63f54ca308624e7f354c4ae2157409ede527d710d8f54int);
    let e = squared_times(e, 0x1b70ed169070aafddbe63f54ca308624e7f354c4ae2157409ede527d710d8f54int, 0x2ecf7aa229429161bb3c47e282052d1997ab3ba946ae334e49d2d59c56330a1fint);
    let e = squared_times(e, 0x2ecf7aa229429161bb3c47e282052d1997ab3ba946ae334e49d2d59c56330a1fint, 0x173fcebb55ea62a07174edf7629672949196542e04313acd8ae74aea9170b32cint);
    e
}

proof fn powers_3() -> (e: nat)
    ensures
        e == 0x183227397098dnat,
        pow(GENERATOR as int, e) % field::modulus() == 0x17d75b0d5cfcbf9e9c50d0dd46a33b1ae9b7bf7ba6cf72c9aac0e8e182ccede7int,
{
    let e = powers_2();
    let e = squared(e, 0x173fcebb55ea62a07174edf7629672949196542e04313acd8ae74aea9170b32cint, 0x14e9445290eb9ec74428901b2f8d8826e64d2a98076d497fff05247983607b95int);
    let e = squared(e, 0x14e9445290eb9ec74428901b2f8d8826e64d2a98076d497fff05247983607b95int, 0x18f9f8fcb73afa63f977d044123191d4997f1eb56479b07f2586ba5e5c746097int);
    let e = squared(e, 0x18f9f8fcb73afa63f977d044123191d4997f1eb56479b07f2586ba5e5c746097int, 0x1e87a05acd30bc209fd94990ad8870902a2cbd1e6523f336677c4affd272243cint);
    let e = squared(e, 0x1e87a05acd30bc209fd94990ad8870902a2cbd1e6523f336677c4affd272243cint, 0x21f7dc4eb56af6d331174c01a004adc6be668a7d837e2f48ae67712b16b19b69int);
    let e = squared_times(e, 0x21f7dc4eb56af6d331174c01a004adc6be668a7d837e2f48ae67712b16b19b69int, 0x1422b4c7d4e796197a6091bbd14f85c67d0d37daec08ca6594e2bd7ea5275ea6int);
    let e = squared(e, 0x1422b4c7d4e796197a6091bbd14f85c67d0d37daec08ca6594e2bd7ea5275ea6int, 0x2d1bc86874ba79b93628e81f25a373bc6a2bb979d4e38147aaa67320c538b486int);
    let e = squared(e, 0x2d1bc86874ba79b93628e81f25a373bc6a2bb979d4e38147aaa67320c538b486int, 0x29c8ceccb75a07d1de3626bce8fdb02e12a2e4aaaf7eaa61ae10f8bd19ccdd5cint);
    let e = squared_times(e, 0x29c8ceccb75a07d1de3626bce8fdb02e12a2e4aaaf7eaa61ae10f8bd19ccdd5cint, 0x15ebdcbcc4d4a2244cddc74bcc2c97f9997bc81e6594c37de224a4660c44d880int);
    let e = squared_times(e, 0x15ebdcbcc4d4a2244cddc74bcc2c97f9997bc81e6594c37de224a4660c44d880int, 0x861253f038b2a9c5c893fdf3ea28ada8ef06e5f3399f617d6703665e7160c2fint);
    let e = squared(e, 0x861253f038b2a9c5c893fdf3ea28ada8ef06e5f3399f617d6703665e7160c2fint, 0x5e0cf4d8de2759072901d6bf386286567b7859f22d4633df89c736bc130e6cbint);
    let e = squared(e, 0x5e0cf4d8de2759072901d6bf386286567b7859f22d4633df89c736bc130e6cbint, 0x3ee4e8b10f63c3a39bbf50147fec422ad3b527a3ce17d8aecbb03048573fffint);
    let e = squared(e, 0x3ee4e8b10f63c3a39bbf50147fec422ad3b527a3ce17d8aecbb03048573fffint, 0x1623898232142952325581dca643b183a08eaea91d5013b267fc4506aa751962int);
    let e = squared_times(e, 0x1623898232142952325581dca643b183a08eaea91d5013b267fc4506aa751962int, 0x463f07257feca8ae426f65130dc46bb92a5028d8a9e53e567269127fc667996int);
    let e = squared_times(e, 0x463f07257feca8ae426f65130dc46bb92a5028d8a9e53e567269127fc667996int, 0x2702d12e490adbf843d9874990d9f3310e78629a1745ecf9a11aed368029dfadint);
    let e = squared(e, 0x2702d12e490adbf843d9874990d9f3310e78629a1745ecf9a11aed368029dfadint, 0x1ec8d6b4c517a9b29b5c3de5af149a1ae1d85aae42a851bd2d4fd45d0aea7af4int);
    let e = squared_times(e, 0x1ec8d6b4c517a9b29b5c3de5af149a1ae1d85aae42a851bd2d4fd45d0aea7af4int, 0x17d75b0d5cfcbf9e9c50d0dd46a33b1ae9b7bf7ba6cf72c9aac0e8e182ccede7int);
    e
}

proof fn powers_4() -> (e: nat)
    ensures
        e == 0x183227397098d014dnat,
        pow(GENERATOR as int, e) % field::modulus() == 0x5c188d6cf0d5b538a9f64f7669d35c4bf8c1147e8b31c80d19eb955d6524059int,
{
    let e = powers_3();
    let e = squared(e, 0x17d75b0d5cfcbf9e9c50d0dd46a33b1ae9b7bf7ba6cf72c9aac0e8e182ccede7int, 0x185303ce87a99cdd4398b9da8ec109e3d850a60dbcbd3d8a8f8dc1a293eb1329int);
    let e = squared(e, 0x185303ce87a99cdd4398b9da8ec109e3d850a60dbcbd3d8a8f8dc1a293eb1329int, 0x2b64c819c228b5ab05e93106caa783801932eb6780f406bb16b3b5c624111217int);
    let e = squared(e, 0x2b64c819c228b5ab05e93106caa783801932eb6780f406bb16b3b5c624111217int, 0x1605e644ea5bad523b47f53eb794312de2f35b044af164021b51a13bbee1e05fint);
    let e = squared(e, 0x1605e644ea5bad523b47f53eb794312de2f35b044af164021b51a13bbee1e05fint, 0x54faf2b15da85b5f41f2e0754145837e0ead3e5167c7f891647511c70b5da65int);
    let e = squared(e, 0x54faf2b15da85b5f41f2e0754145837e0ead3e5167c7f891647511c70b5da65int, 0x2a553bb813daa7d295f62b05ed035981ad5ca37cac8beeb305030f2a8f6843c8int);
    let e = squared(e, 0x2a553bb813daa7d295f62b05ed035981ad5ca37cac8beeb305030f2a8f6843c8int, 0x258f646bb69b7f9bdd15aaf53563dde1d79b0cc17710dbe7c525c0e9d60d457bint);
    let e = squared(e, 0x258f646bb69b7f9bdd15aaf53563dde1d79b0cc17710dbe7c525c0e9d60d457bint, 0x303623cf55bb89fdcc912e4130a611b4c89e5110e6e55586fdcd71a3697838ecint);
    let e = squared_times(e, 0x303623cf55bb89fdcc912e4130a611b4c89e5110e6e55586fdcd71a3697838ecint, 0x8977960989d56c984cbe6412ff58bbf532e5e792056c9a5c22c78d30b03b60aint);
    let e = squared(e, 0x8977960989d56c984cbe6412ff58bbf532e5e792056c9a5c22c78d30b03b60aint, 0xf8195b68e99211de33b36309bdac8e3d83095f19134224b0d56a7dce9addfddint);
    let e = squared_times(e, 0xf8195b68e99211de33b36309bdac8e3d83095f19134224b0d56a7dce9addfddint, 0xbea624bb91bbcfebe6df32b4fd7d9252d7cd015c3a2efbd29606aba086c5a7bint);
    let e = squared(e, 0xbea624bb91bbcfebe6df32b4fd7d9252d7cd015c3a2efbd29606aba086c5a7bint, 0x1a71be178a1b237f4c4c5cea792882b96bc4cd789859f37f25c0a0e2a7dbb435int);
    let e = squared(e, 0x1a71be178a1b237f4c4c5cea792882b96bc4cd789859f37f25c0a0e2a7dbb435int, 0x18ebe1eb47ea9dc2c5f2f4d7d554cc0bb9fb307b46d5a934e6a4469288c6a15bint);
    let e = squared_times(e, 0x18ebe1eb47ea9dc2c5f2f4d7d554cc0bb9fb307b46d5a934e6a4469288c6a15bint, 0x119de6a97692733caafee6b3a7c448e33668d38834266282550a745d9f074119int);
    let e = squared_times(e, 0x119de6a97692733caafee6b3a7c448e33668d38834266282550a745d9f074119int, 0x1dd4a19ed3c7906ffc627d275d2130cfe36a5ffc51607a53d127a3483dbd12e3int);
    let e = squared(e, 0x1dd4a19ed3c7906ffc627d275d2130cfe36a5ffc51607a53d127a3483dbd12e3int, 0x3782dcb9850c2737aec1c97bca442e88885b946e65f2cd896fdbf72671ba277int);
    let e = squared_times(e, 0x3782dcb9850c2737aec1c97bca442e88885b946e65f2cd896fdbf72671ba277int, 0x5c188d6cf0d5b538a9f64f7669d35c4bf8c1147e8b31c80d19eb955d6524059int);
    e
}

proof fn powers_5() -> (e: nat)
    ensures
        e == 0x183227397098d014dc282nat,
        pow(GENERATOR as int, e) % field::modulus() == 0x92407d96ac392f5f67d84cbfc9561f9aad7cda3443ca59267eac0897c2328eeint,
{
    let e = powers_4();
    let e = squared_times(e, 0x5c188d6cf0d5b538a9f64f7669d35c4bf8c1147e8b31c80d19eb955d6524059int, 0x19389727cf028dffed6ef7299c11b5ff5be5dba7f9870d46f1fd3272eca583deint);
    let e = squared_times(e, 0x19389727cf028dffed6ef7299c11b5ff5be5dba7f9870d46f1fd3272eca583deint, 0x253ed14b16e59a29f37ef6c28a374f204e3046100bc1ba8980ddd830e0887684int);
    let e = squared(e, 0x253ed14b16e59a29f37ef6c28a374f204e3046100bc1ba8980ddd830e0887684int, 0x2f41221b451a85233b0a49966d8a87db2195f4f0d5b4d1076373b1dad047a8d2int);
    let e = squared(e, 0x2f41221b451a85233b0a49966d8a87db2195f4f0d5b4d1076373b1dad047a8d2int, 0x305c66729153d7a54034c874253fcef87ffd0a1a0d5623c73803101eceaaee96int);
    let e = squared(e, 0x305c66729153d7a54034c874253fcef87ffd0a1a0d5623c73803101eceaaee96int, 0x1e76036591f99b08985e8b41aacedac6c9d085a11241f39123176426cbacbae3int);
    let e = squared(e, 0x1e76036591f99b08985e8b41aacedac6c9d085a11241f39123176426cbacbae3int, 0x125fd5bee1b2eae69f942faa60c357e48f3e087004510475a8171ff475fcfc86int);
    let e = squared_times(e, 0x125fd5bee1b2eae69f942faa60c357e48f3e087004510475a8171ff475fcfc86int, 0xf6280547e941a0246333ab4b2559e472ac62d7280584575de848aa2cbcadfe8int);
    let e = squared(e, 0xf6280547e941a0246333ab4b2559e472ac62d7280584575de848aa2cbcadfe8int, 0x247c2555aa8546510bc04467c138245c6e6c5dfb3f8c9a4efba2129eaed796d4int);
    let e = squared_times(e, 0x247c2555aa8546510bc04467c138245c6e6c5dfb3f8c9a4efba2129eaed796d4int, 0x13fa573acd280a9a975495d309749a709a6d8c5f665e0a3099670e99ac27dbebint);
    let e = squared(e, 0x13fa573acd280a9a975495d309749a709a6d8c5f665e0a3099670e99ac27dbebint, 0x1d59a3d196123cb763da6c49c021e42b1d243da79a7198c884c6b1a38183df6fint);
    let e = squared(e, 0x1d59a3d196123cb763da6c49c021e42b1d243da79a7198c884c6b1a38183df6fint, 0x4c0b8e046e97801a6115a84a8597a96c5ae0a986931d79f7278fd5d3309827cint);
    let e = squared(e, 0x4c0b8e046e97801a6115a84a8597a96c5ae0a986931d79f7278fd5d3309827cint, 0x127276f683f808b12a5f485aaf94ac4a7ae8082a8c5ae6c54fbd6450fdcac3c5int);
    let e = squared(e, 0x127276f683f808b12a5f485aaf94ac4a7ae8082a8c5ae6c54fbd6450fdcac3c5int, 0x4f5353305be5148e855fce32a5e8fe0b20889434965447c19e18af10a2e9143int);
    let e = squared(e, 0x4f5353305be5148e855fce32a5e8fe0b20889434965447c19e18af10a2e9143int, 0x188bea27d4661db8ced3c871fb621226d44c71e35a65d9fa3156482204028eb5int);
    let e = squared_times(e, 0x188bea27d4661db8ced3c871fb621226d44c71e35a65d9fa3156482204028eb5int, 0xe3e4f2d396186682fabcccf1e74b5f8095859adc510e11be0c70dd7e385a492int);
    let e = squared(e, 0xe3e4f2d396186682fabcccf1e74b5f8095859adc510e11be0c70dd7e385a492int, 0x92407d96ac392f5f67d84cbfc9561f9aad7cda3443ca59267eac0897c2328eeint);
    e
}

proof fn powers_6() -> (e: nat)
    ensures
        e == 0x183227397098d014dc2822db4nat,
        pow(GENERATOR as int, e) % field::modulus() == 0x14baebb62fe044270467928e47e0c8197673b50a29c59822e200e42e4b510f82int,
{
    let e = powers_5();
    let e = squared(e, 0x92407d96ac392f5f67d84cbfc9561f9aad7cda3443ca59267eac0897c2328eeint, 0x1d0ed10bacc57cf5815a89bf3bf45563c006849fa4fff0f1c32956bab80253fbint);
    let e = squared(e, 0x1d0ed10bacc57cf5815a89bf3bf45563c006849fa4fff0f1c32956bab80253fbint, 0x3d9395409bb925c07079a0777bbbd875fbca03b98356135f7ffb0b1ee324387int);
    let e = squared_times(e, 0x3d9395409bb925c07079a0777bbbd875fbca03b98356135f7ffb0b1ee324387int, 0x4f9ad2afa87b0a990497a5f9f90046c5d4c3d0c48c0ce7bfb80a95c1c5e0f73int);
    let e = squared(e, 0x4f9ad2afa87b0a990497a5f9f90046c5d4c3d0c48c0ce7bfb80a95c1c5e0f73int, 0x29caa0c257b717ea8fc5cde7e5a74956e0a0624776525865a9d26b30ad2222cbint);
    let e = squared_times(e, 0x29caa0c257b717ea8fc5cde7e5a74956e0a0624776525865a9d26b30ad2222cbint, 0x2bfa861359029bf5af1c1c7cf21fed85dda9aac7cfb4c7424dcf8712e01f3524int);
    let e = squared_times(e, 0x2bfa861359029bf5af1c1c7cf21fed85dda9aac7cfb4c7424dcf8712e01f3524int, 0x5f97924cfcf212d72e6866ad007eef6851d9ab117a527d616aa03944f27bc9dint);
    let e = squared(e, 0x5f97924cfcf212d72e6866ad007eef6851d9ab117a527d616aa03944f27bc9dint, 0x2a66b2a687f04afcdbb9be3af9df95ebed06fae4320053d11bc9e1468aa66dbeint);
    let e = squared_times(e, 0x2a66b2a687f04afcdbb9be3af9df95ebed06fae4320053d11bc9e1468aa66dbeint, 0x49b9cbb7e9d8bf6fb44f3eda5d2c2ba8074b948c034085a1851886dd0ca770bint);
    let e = squared_times(e, 0x49b9cbb7e9d8bf6fb44f3eda5d2c2ba8074b948c034085a1851886dd0ca770bint, 0x2f80b856737464cf6f8b11c23c231a2deed3f957dc3b5397ff7f516afc0bda47int);
    let e = squared(e, 0x2f80b856737464cf6f8b11c23c231a2deed3f957dc3b5397ff7f516afc0bda47int, 0x297b8a4a9f44d22a05281535dd7060ce6ac24de8372756858649ad36c4ca2e4cint);
    let e = squared_times(e, 0x297b8a4a9f44d22a05281535dd7060ce6ac24de8372756858649ad36c4ca2e4cint, 0x431ab2c6138a6dbfc1f6532210d7c3e8c809e5d5788786a37148e00a08a4997int);
    let e = squared_times(e, 0x431ab2c6138a6dbfc1f6532210d7c3e8c809e5d5788786a37148e00a08a4997int, 0x20c02898795cfe53ff56da0975c8372acc0caa1e9b3f4a7680c440df28d04f03int);
    let e = squared(e, 0x20c02898795cfe53ff56da0975c8372acc0caa1e9b3f4a7680c440df28d04f03int, 0x2d356a1198e645aba7f5738ffd4fef5a32818f2c564f13375d234dc527b08e90int);
    let e = squared_times(e, 0x2d356a1198e645aba7f5738ffd4fef5a32818f2c564f13375d234dc527b08e90int, 0x1230dd189323f3f065be7845ed6c81529630aba4d8f0f46aba9d68ec8b7c20ecint);
    let e = squared(e, 0x1230dd189323f3f065be7845ed6c81529630aba4d8f0f46aba9d68ec8b7c20ecint, 0x65f16a03cd8e8bbbc435dc83ff7f667dc5f0a605d3f12de78ba117a597b1157int);
    let e = squared(e, 0x65f16a03cd8e8bbbc435dc83ff7f667dc5f0a605d3f12de78ba117a597b1157int, 0x14baebb62fe044270467928e47e0c8197673b50a29c59822e200e42e4b510f82int);
    e
}

proof fn powers_7() -> (e: nat)
    ensures
        e == 0x183227397098d014dc2822db40c0anat,
        pow(GENERATOR as int, e) % field::modulus() == 0xe34c45ccc9cdbd384b3c1e10ddfcb8a61a30de46baa0333e23ad93846fc697dint,
{
    let e = powers_6();
    let e = squared(e, 0x14baebb62fe044270467928e47e0c8197673b50a29c59822e200e42e4b510f82int, 0x1d491430eb76e7b77fef264348130990db65ff1c047d23f12668b39f31483bcbint);
    let e = squared(e, 0x1d491430eb76e7b77fef264348130990db65ff1c047d23f12668b39f31483bcbint, 0x1d465dd9416e442d1413903e6213377fc9cbb2b21a27467517d404099e22a742int);
    let e = squared(e, 0x1d465dd9416e442d1413903e6213377fc9cbb2b21a27467517d404099e22a742int, 0x92d93faaff7c0c3371bfaa8103bff3e46fa1d39da5f877afb0cdc10d230dd92int);
    let e = squared(e, 0x92d93faaff7c0c3371bfaa8103bff3e46fa1d39da5f877afb0cdc10d230dd92int, 0x2dc61d93888fd6651dfa0605c5520dec0eeedefa3185ff31cc4b7538da52aa0int);
    let e = squared_times(e, 0x2dc61d93888fd6651dfa0605c5520dec0eeedefa3185ff31cc4b7538da52aa0int, 0x1b8ecae87e4fea810e236519f292edd22297393c5f8d48f9ea60c95fbb2dd159int);
    let e = squared_times(e, 0x1b8ecae87e4fea810e236519f292edd22297393c5f8d48f9ea60c95fbb2dd159int, 0x22133d39f6812a36743815f0782a8c1607626cb0c0c9c40bc5951ea92b39c8c5int);
    let e = squared(e, 0x22133d39f6812a36743815f0782a8c1607626cb0c0c9c40bc5951ea92b39c8c5int, 0x9620bb687e8b6e83ef4641f372bf73108b7d3e47cf628a09556c386b1f88e56int);
    let e = squared(e, 0x9620bb687e8b6e83ef4641f372bf73108b7d3e47cf628a09556c386b1f88e56int, 0x1fc353be88992e2712a1bc3c57d9c30d379deb4467e5b80f4c5e1f4e97e72a80int);
    let e = squared(e, 0x1fc353be88992e2712a1bc3c57d9c30d379deb4467e5b80f4c5e1f4e97e72a80int, 0xaef11dce8718f34a191683d0c3f7d2b78c2cc9135a5dbacefc675967975fe17int);
    let e = squared(e, 0xaef11dce8718f34a191683d0c3f7d2b78c2cc9135a5dbacefc675967975fe17int, 0x27d88ae398ee540c083d12b9ea1da57d5a43338a5dd2ff5889812f9a26861311int);
    let e = squared(e, 0x27d88ae398ee540c083d12b9ea1da57d5a43338a5dd2ff5889812f9a26861311int, 0x211ac2ca6e12f00a221047d56a58ebc5fb8fffaca2aed59accae25e6c4adf62aint);
    let e = squared(e, 0x211ac2ca6e12f00a221047d56a58ebc5fb8fffaca2aed59accae25e6c4adf62aint, 0x1ab11c33d801198f4ce7409d9e254b79b243d318f03fd1e8af164e8c3fa6ae2int);
    let e = squared_times(e, 0x1ab11c33d801198f4ce7409d9e254b79b243d318f03fd1e8af164e8c3fa6ae2int, 0x262e7a6cff35688e27f6dd568aebfe3dc11d767a1369c6fb4de270c7e8c60db7int);
    let e = squared(e, 0x262e7a6cff35688e27f6dd568aebfe3dc11d767a1369c6fb4de270c7e8c60db7int, 0xd140a9116c30399e811602932ee483a54af3da1af94077e5ac828cc4ecfdc29int);
    let e = squared_times(e, 0xd140a9116c30399e811602932ee483a54af3da1af94077e5ac828cc4ecfdc29int, 0x20e44659454228443d99650fe4358f4d5d74bd8f487509a6f609802c689e7ceaint);
    let e = squared(e, 0x20e44659454228443d99650fe4358f4d5d74bd8f487509a6f609802c689e7ceaint, 0xe34c45ccc9cdbd384b3c1e10ddfcb8a61a30de46baa0333e23ad93846fc697dint);
    e
}

proof fn powers_8() -> (e: nat)
    ensures
        e == 0x183227397098d014dc2822db40c0ac2e9nat,
        pow(GENERATOR as int, e) % field::modulus() == 0x1b9fcec4911e1454222dba1198bf1a6f19eb44edecc6f439865fcc31105132fcint,
{
    let e = powers_7();
    let e = squared_times(e, 0xe34c45ccc9cdbd384b3c1e10ddfcb8a61a30de46baa0333e23ad93846fc697dint, 0x1a7665da29ac2009b2b0672857925b51854d2610ed8b3099228dd804cc44274dint);
    let e = squared_times(e, 0x1a7665da29ac2009b2b0672857925b51854d2610ed8b3099228dd804cc44274dint, 0x1ac75874cc85bb1c19fbf36eaeb22bfa91e2165f293b26fb21a26db3718772beint);
    let e = squared(e, 0x1ac75874cc85bb1c19fbf36eaeb22bfa91e2165f293b26fb21a26db3718772beint, 0xdc93123179a724a9760b645506b5a1f7f6fd33f23c26add10296c64ee46df8dint);
    let e = squared(e, 0xdc93123179a724a9760b645506b5a1f7f6fd33f23c26add10296c64ee46df8dint, 0x274b20bce6726ba90d7250c7765d8051a562acdd59b6ea4bd9c5cc9f59c14273int);
    let e = squared(e, 0x274b20bce6726ba90d7250c7765d8051a562acdd59b6ea4bd9c5cc9f59c14273int, 0xd0e1d0c47e590635f45c4ec1473128caeac6134a38b30b20821bc9366390049int);
    let e = squared(e, 0xd0e1d0c47e590635f45c4ec1473128caeac6134a38b30b20821bc9366390049int, 0x14c16fdb64ac98fd373244ff06c3c6584e6cfd8dd94f1e1e1003a2a7246d2585int);
    let e = squared_times(e, 0x14c16fdb64ac98fd373244ff06c3c6584e6cfd8dd94f1e1e1003a2a7246d2585int, 0x91c81f990214d4f5467dc1d8a2ff909223aa642011072f1234fcc4e86bb3894int);
    let e = squared(e, 0x91c81f990214d4f5467dc1d8a2ff909223aa642011072f1234fcc4e86bb3894int, 0x297e6314e35ad6ea23432a3a0e771d8091ae171346e245485d756d803320c405int);
    let e = squared_times(e, 0x297e6314e35ad6ea23432a3a0e771d8091ae171346e245485d756d803320c405int, 0x1c16b59722cf3ffcdac88061da2774666e8915d19436eea3a36fc9d428f502e5int);
    let e = squared_times(e, 0x1c16b59722cf3ffcdac88061da2774666e8915d19436eea3a36fc9d428f502e5int, 0x13ee2928f5461fe86aa9d4351037a334d5c3739d32ed073058b749229700eeceint);
    let e = squared_times(e, 0x13ee2928f5461fe86aa9d4351037a334d5c3739d32ed073058b749229700eeceint, 0x2a850f10f1452924acfa2a63bd5ad464680acaf26e265f6d137cc542aff6e6e2int);
    let e = squared(e, 0x2a850f10f1452924acfa2a63bd5ad464680acaf26e265f6d137cc542aff6e6e2int, 0x2a4b2f585d84ffaa557dda59eb67b85f1ef6b46ba7ea30c0cc3987b04d6f10c0int);
    let e = squared_times(e, 0x2a4b2f585d84ffaa557dda59eb67b85f1ef6b46ba7ea30c0cc3987b04d6f10c0int, 0xc32a25f4b5861bf6c4e9452bf6873d33087d4f3c6394786faba111fd8730b08int);
    let e = squared(e, 0xc32a25f4b5861bf6c4e9452bf6873d33087d4f3c6394786faba111fd8730b08int, 0x1a80041b311bca76f0f216aedb6dfc590baa0d5f7d2f31cff9829729091b026int);
    let e = squared(e, 0x1a80041b311bca76f0f216aedb6dfc590baa0d5f7d2f31cff9829729091b026int, 0x2e6c68dbbaa4b6dc7fbad9fbe2f822ba18dd200eb5c3eda8933e9299a0a9c0e1int);
    let e = squared_times(e, 0x2e6c68dbbaa4b6dc7fbad9fbe2f822ba18dd200eb5c3eda8933e9299a0a9c0e1int, 0x1b9fcec4911e1454222dba1198bf1a6f19eb44edecc6f439865fcc31105132fcint);
    e
}

proof fn powers_9() -> (e: nat)
    ensures
        e == 0x183227397098d014dc2822db40c0ac2e9419fnat,
        pow(GENERATOR as int, e) % field::modulus() == 0x13478fa84347dce6a490c8ede8063dd4b42b70e31a6a7424204e9c361007ea18int,
{
    let e = powers_8();
    let e = squared(e, 0x1b9fcec4911e1454222dba1198bf1a6f19eb44edecc6f439865fcc31105132fcint, 0x2fa95ba195b300ceb04159b6a58c3c37e3a751b9eb7cbb2f77f9162d4dec96b5int);
    let e = squared_times(e, 0x2fa95ba195b300ceb04159b6a58c3c37e3a751b9eb7cbb2f77f9162d4dec96b5int, 0xbad93528ad89c065900e3d529bc70746e8042157e78cb2d8f21a0f7e490ab72int);
    let e = squared(e, 0xbad93528ad89c065900e3d529bc70746e8042157e78cb2d8f21a0f7e490ab72int, 0xcf5fdb3c23f9e71e2223562335459dae6be679f6f23225631f78647ae7df207int);
    let e = squared(e, 0xcf5fdb3c23f9e71e2223562335459dae6be679f6f23225631f78647ae7df207int, 0x2506d6db3ff7b7e46f2b9ae24c8f9566cf0b9320b15a5b151b1451b9245308beint);
    let e = squared(e, 0x2506d6db3ff7b7e46f2b9ae24c8f9566cf0b9320b15a5b151b1451b9245308beint, 0x7f27a188aea91770b7031f6ef93f18922573d6cb5205af52058965362a130c9int);
    let e = squared(e, 0x7f27a188aea91770b7031f6ef93f18922573d6cb5205af52058965362a130c9int, 0x28729d2266cf38f51901096fab5a00e18415b56e566c611fea9a328607cdef79int);
    let e = squared(e, 0x28729d2266cf38f51901096fab5a00e18415b56e566c611fea9a328607cdef79int, 0xaa25afcbf0c7ca4495a481583c3a9bb59a20e086ed7d27d22d2d9d75953c85eint);
    let e = squared_times(e, 0xaa25afcbf0c7ca4495a481583c3a9bb59a20e086ed7d27d22d2d9d75953c85eint, 0x17b4d2601eca79221e9a8d3882ed9fc1e372b582844ac1c362624ad7c5f40e06int);
    let e = squared_times(e, 0x17b4d2601eca79221e9a8d3882ed9fc1e372b582844ac1c362624ad7c5f40e06int, 0x160f6daefaa495ebe85212ea780c6d8a4a344109121802c5da6bc49660fb4d51int);
    let e = squared(e, 0x160f6daefaa495ebe85212ea780c6d8a4a344109121802c5da6bc49660fb4d51int, 0x2e0c873fa32fa9a2adf453310fbbdcc9dd2a132360bec59237147d464e976e7dint);
    let e = squared(e, 0x2e0c873fa32fa9a2adf453310fbbdcc9dd2a132360bec59237147d464e976e7dint, 0x2c754a4f9a2dd8f66dbaf07dad6384539b783eb03e069c4b20ada6a9a85414f7int);
    let e = squared_times(e, 0x2c754a4f9a2dd8f66dbaf07dad6384539b783eb03e069c4b20ada6a9a85414f7int, 0x1a947d478e574a752b1697297a72de5af171fddacf32981cb701c50f0213a4cint);
    let e = squared_times(e, 0x1a947d478e574a752b1697297a72de5af171fddacf32981cb701c50f0213a4cint, 0x153e159df488b56ad8c4bb1e5873c6975fb3afb88449ed2aa5a90b4de66cfacaint);
    let e = squared_times(e, 0x153e159df488b56ad8c4bb1e5873c6975fb3afb88449ed2aa5a90b4de66cfacaint, 0x27238f526fd3edb755927383105267a69c4f946b8ae6494ab08897a1154d3aint);
    let e = squared_times(e, 0x27238f526fd3edb755927383105267a69c4f946b8ae6494ab08897a1154d3aint, 0x20b6a5555acbf0e7ae7f8816ac2881fb25a3095c3fdd5384d414f15d19882e98int);
    let e = squared_times(e, 0x20b6a5555acbf0e7ae7f8816ac2881fb25a3095c3fdd5384d414f15d19882e98int, 0x13478fa84347dce6a490c8ede8063dd4b42b70e31a6a7424204e9c361007ea18int);
    e
}

proof fn powers_10() -> (e: nat)
    ensures
        e == 0x183227397098d014dc2822db40c0ac2e9419f4243nat,
        pow(GENERATOR as int, e) % field::modulus() == 0x95fcdf0d5959b35b9b72b2e7622cb63999fab04283d16020740194c91d0828bint,
{
    let e = powers_9();
    let e = squared(e, 0x13478fa84347dce6a490c8ede8063dd4b42b70e31a6a7424204e9c361007ea18int, 0x20ecf0e3809f45342bc8e2badc63e56e62e77cd3ffb38e4cbc5d0d88e624c052int);
    let e = squared_times(e, 0x20ecf0e3809f45342bc8e2badc63e56e62e77cd3ffb38e4cbc5d0d88e624c052int, 0x1a544c2b2e1e3182111745afcf8446cd6916e42577f5274627f2f0f89bad8b59int);
    let e = squared(e, 0x1a544c2b2e1e3182111745afcf8446cd6916e42577f5274627f2f0f89bad8b59int, 0x268d5af1b19f9a86298290fa8a5a55ce77c85251d4617a7b835753a629ebe799int);
    let e = squared(e, 0x268d5af1b19f9a86298290fa8a5a55ce77c85251d4617a7b835753a629ebe799int, 0x2dc9f9bf0ffb319ce29703e3f87db754bc0a928dee45449918d403ac83c3a0d4int);
    let e = squared(e, 0x2dc9f9bf0ffb319ce29703e3f87db754bc0a928dee45449918d403ac83c3a0d4int, 0x2a1cd207877eb2042fa9029737b5bea717cadf572f303c24cc82d2b001391073int);
    let e = squared(e, 0x2a1cd207877eb2042fa9029737b5bea717cadf572f303c24cc82d2b001391073int, 0x10e56470e68b28756c1f44c25acf9ac6bea004bfef07d6bf99cb89653c10de95int);
    let e = squared_times(e, 0x10e56470e68b28756c1f44c25acf9ac6bea004bfef07d6bf99cb89653c10de95int, 0xfdefe62328c1c7d6557dc58541ce8257c0f13524e80506f1b17fd4a8d2e4348int);
    let e = squared(e, 0xfdefe62328c1c7d6557dc58541ce8257c0f13524e80506f1b17fd4a8d2e4348int, 0x133588463d14ade264af227c7f8b35e1538ca8e6274491f411ce0d85c32bfa5aint);
    let e = squared(e, 0x133588463d14ade264af227c7f8b35e1538ca8e6274491f411ce0d85c32bfa5aint, 0xb2e466501f06b32d2d13ab1a845eb5cf53a265a41691ac581a6c1fc493fb20bint);
    let e = squared_times(e, 0xb2e466501f06b32d2d13ab1a845eb5cf53a265a41691ac581a6c1fc493fb20bint, 0x1656964c3dda054e535dc4f293fbe60ae2fcf0ad75ceb874d86e0d53f375a89bint);
    let e = squared(e, 0x1656964c3dda054e535dc4f293fbe60ae2fcf0ad75ceb874d86e0d53f375a89bint, 0x20e244c5565eeaff6584b541d4316f6332eefd6ca02a55c4688f60ab6a1ac0caint);
    let e = squared(e, 0x20e244c5565eeaff6584b541d4316f6332eefd6ca02a55c4688f60ab6a1ac0caint, 0x1d1a5e2d09158b0e83f875f6776054490ff83c8045fb6227143c52a0e73af04fint);
    let e = squared(e, 0x1d1a5e2d09158b0e83f875f6776054490ff83c8045fb6227143c52a0e73af04fint, 0x152da38646dcb73171fd498120dd2b2c2a61455b00889ea451d83589283483d3int);
    let e = squared(e, 0x152da38646dcb73171fd498120dd2b2c2a61455b00889ea451d83589283483d3int, 0x209d29869d00493ef0f8c4e379f1942e4d96dcef41aa8199457cf114cc301e92int);
    let e = squared_times(e, 0x209d29869d00493ef0f8c4e379f1942e4d96dcef41aa8199457cf114cc301e92int, 0x2dd144bd2546ce8d817fd5e978d0e3e314bc9db710983172d20bb847e893430eint);
    let e = squared_times(e, 0x2dd144bd2546ce8d817fd5e978d0e3e314bc9db710983172d20bb847e893430eint, 0x95fcdf0d5959b35b9b72b2e7622cb63999fab04283d16020740194c91d0828bint);
    e
}

proof fn powers_11() -> (e: nat)
    ensures
        e == 0x183227397098d014dc2822db40c0ac2e9419f4243cdcbnat,
        pow(GENERATOR as int, e) % field::modulus() == 0xb7b399c3383205d925204b9064fd4618b3dabc3dd24dc5ae42d303371f7cd01int,
{
    let e = powers_10();
    let e = squared_times(e, 0x95fcdf0d5959b35b9b72b2e7622cb63999fab04283d16020740194c91d0828bint, 0x240ce7579a4b2ce0ce5e6297cf80b7d5bcd36de1ae18e77faa45b4f6736debb8int);
    let e = squared_times(e, 0x240ce7579a4b2ce0ce5e6297cf80b7d5bcd36de1ae18e77faa45b4f6736debb8int, 0x17be3e9031125d3d146958097f68dd39e354eeee929d028a73bcb906bc1096d7int);
    let e = squared(e, 0x17be3e9031125d3d146958097f68dd39e354eeee929d028a73bcb906bc1096d7int, 0x16686adff412fa79c66939562ffdddc7d349d9a2d146fae39f89cb4690109a45int);
    let e = squared(e, 0x16686adff412fa79c66939562ffdddc7d349d9a2d146fae39f89cb4690109a45int, 0x19000c9c12259a0c36ac49d6b79e34ec28806749d87f4d750610413836e0f89dint);
    let e = squared_times(e, 0x19000c9c12259a0c36ac49d6b79e34ec28806749d87f4d750610413836e0f89dint, 0x44bd01f3f04d6b37e7eefb50f76d3b452bb6b3838f4653b1892a8e9f966de1eint);
    let e = squared_times(e, 0x44bd01f3f04d6b37e7eefb50f76d3b452bb6b3838f4653b1892a8e9f966de1eint, 0x1a6bee692e7e2956e915cf7a1eea55b4e452e9ac9a51fd0fb42fa6e445b7527int);
    let e = squared(e, 0x1a6bee692e7e2956e915cf7a1eea55b4e452e9ac9a51fd0fb42fa6e445b7527int, 0x30517ca03e3355c9ac37e3b3c0c981e944e37c2e743a33b82b92b17c75e49d47int);
    let e = squared_times(e, 0x30517ca03e3355c9ac37e3b3c0c981e944e37c2e743a33b82b92b17c75e49d47int, 0x1d6acc1ebfac663e3f710493ccc1d083174afb4a419df11c8517a8eab8970060int);
    let e = squared_times(e, 0x1d6acc1ebfac663e3f710493ccc1d083174afb4a419df11c8517a8eab8970060int, 0x2c92f600eb7a417c2b18109da67868fa8b6ab3265a03b10eda13bbb749cb8bdbint);
    let e = squared_times(e, 0x2c92f600eb7a417c2b18109da67868fa8b6ab3265a03b10eda13bbb749cb8bdbint, 0x59e12ac135735fa34c9bb4582ad695830671950496cbff9f8c218216c09aa94int);
    let e = squared(e, 0x59e12ac135735fa34c9bb4582ad695830671950496cbff9f8c218216c09aa94int, 0x7ee96bcdcee7234cb28a50f4a028d0728d909e14275eec8f34f96f800b7fd72int);
    let e = squared(e, 0x7ee96bcdcee7234cb28a50f4a028d0728d909e14275eec8f34f96f800b7fd72int, 0x8e9cdcc6ce92a247e1b6f9c8a415390c00d7b192089afdd9449958a12e06828int);
    let e = squared_times(e, 0x8e9cdcc6ce92a247e1b6f9c8a415390c00d7b192089afdd9449958a12e06828int, 0x7a41dd3e5e1dffd6b21d88b37ea7d655946615abdc3d364cb5da4c9b22d5401int);
    let e = squared(e, 0x7a41dd3e5e1dffd6b21d88b37ea7d655946615abdc3d364cb5da4c9b22d5401int, 0x27d44f2cfef79d3e41bbd14e8ecc0432cad07a96b6cc33b0e97225f46f048771int);
    let e = squared_times(e, 0x27d44f2cfef79d3e41bbd14e8ecc0432cad07a96b6cc33b0e97225f46f048771int, 0xbe96d345b18e09c277b3541c6e2bee275b8b826b476312b88d782e7ae615f01int);
    let e = squared_times(e, 0xbe96d345b18e09c277b3541c6e2bee275b8b826b476312b88d782e7ae615f01int, 0xb7b399c3383205d925204b9064fd4618b3dabc3dd24dc5ae42d303371f7cd01int);
    e
}

proof fn powers_12() -> (e: nat)
    ensures
        e == 0x183227397098d014dc2822db40c0ac2e9419f4243cdcb848anat,
        pow(GENERATOR as int, e) % field::modulus() == 0xa279f57cc264298502e1074c0632d87cfd3a58475f67b043b897793bad6d158int,
{
    let e = powers_11();
    let e = squared_times(e, 0xb7b399c3383205d925204b9064fd4618b3dabc3dd24dc5ae42d303371f7cd01int, 0x28402cc204193e8c0145cc7322a015b15666ec59d98c258de61a10bc8913fc79int);
    let e = squared(e, 0x28402cc204193e8c0145cc7322a015b15666ec59d98c258de61a10bc8913fc79int, 0x194a9ac0cb87ef47d413ae43fdc917e89729d36c6bfa5306523c1fb46d63d212int);
    let e = squared(e, 0x194a9ac0cb87ef47d413ae43fdc917e89729d36c6bfa5306523c1fb46d63d212int, 0x2e06c78839e09a20cf2a0a01e09323cc5977d3f2d218e548495bb2e891137241int);
    let e = squared(e, 0x2e06c78839e09a20cf2a0a01e09323cc5977d3f2d218e548495bb2e891137241int, 0x1c7ca5e87a940a17383495f118714db71e766e17ac6866e7b9584bf29da68994int);
    let e = squared(e, 0x1c7ca5e87a940a17383495f118714db71e766e17ac6866e7b9584bf29da68994int, 0x1a765b3b27b6cc50beba7b9c0c89ac35cc2dcf15b3f76c2f1e217ffa4944c054int);
    let e = squared_times(e, 0x1a765b3b27b6cc50beba7b9c0c89ac35cc2dcf15b3f76c2f1e217ffa4944c054int, 0x199a122b07e75d6f3f6bc3081bd8c70958e91ff889b4515670fd948d9683db6dint);
    let e = squared(e, 0x199a122b07e75d6f3f6bc3081bd8c70958e91ff889b4515670fd948d9683db6dint, 0xcf76fd5d4d30de7a885695695ec6478daac1aef538504ea89928e890530f00dint);
    let e = squared(e, 0xcf76fd5d4d30de7a885695695ec6478daac1aef538504ea89928e890530f00dint, 0x23fd90f444728fc917e8a5d4a9ce9a38a36705ae00a29e3b7f867835e41decd7int);
    let e = squared_times(e, 0x23fd90f444728fc917e8a5d4a9ce9a38a36705ae00a29e3b7f867835e41decd7int, 0x1408a6b17f03e33dd0018895aaa15b632f385411a7556cae532348dbaa390722int);
    let e = squared(e, 0x1408a6b17f03e33dd0018895aaa15b632f385411a7556cae532348dbaa390722int, 0x25df81bfade52f296b5717118399a83eaacaa19daa9cd0ffbec95c8b76a61408int);
    let e = squared(e, 0x25df81bfade52f296b5717118399a83eaacaa19daa9cd0ffbec95c8b76a61408int, 0x14afbc7e14ccc11c18a5b902131ab877b008df4dc317c39f9a025e1f7668c5eeint);
    let e = squared(e, 0x14afbc7e14ccc11c18a5b902131ab877b008df4dc317c39f9a025e1f7668c5eeint, 0x2791fa99b165895348d9e7517dd4d52b11e096d9c94a7dba287ec2499fee1ec1int);
    let e = squared_times(e, 0x2791fa99b165895348d9e7517dd4d52b11e096d9c94a7dba287ec2499fee1ec1int, 0x21070825f2f628239b7e286d5e870a6d40f01fdf2dba9e79da883ea7ef6a7707int);
    let e = squared(e, 0x21070825f2f628239b7e286d5e870a6d40f01fdf2dba9e79da883ea7ef6a7707int, 0x71b31634970a966df5db3be5f2611757af275d0dc81773ae4f24b6d9e1dd60bint);
    let e = squared_times(e, 0x71b31634970a966df5db3be5f2611757af275d0dc81773ae4f24b6d9e1dd60bint, 0x1e58f1990fa1e6f7a2122c299d6af033cd5b61f4b095b106f722373dfacc35e2int);
    let e = squared(e, 0x1e58f1990fa1e6f7a2122c299d6af033cd5b61f4b095b106f722373dfacc35e2int, 0xa279f57cc264298502e1074c0632d87cfd3a58475f67b043b897793bad6d158int);
    e
}

proof fn powers_13() -> (e: nat)
    ensures
        e == 0x183227397098d014dc2822db40c0ac2e9419f4243cdcb848a1f0fnat,
        pow(GENERATOR as int, e) % field::modulus() == 0x6aca8829c1461d5aaff1d2bf78a8b7616a3169e22c1085030080928eeea9826int,
{
    let e = powers_12();
    let e = squared(e, 0xa279f57cc264298502e1074c0632d87cfd3a58475f67b043b897793bad6d158int, 0x173156ac712df7f61faa926ec2bb7cc8009ea233b86bd0330c5eaa84dad51f18int);
    let e = squared(e, 0x173156ac712df7f61faa926ec2bb7cc8009ea233b86bd0330c5eaa84dad51f18int, 0x4485d57de794be6d78c40213a03ba78f454e6494f8ae11b8ab7a363ca445177int);
    let e = squared(e, 0x4485d57de794be6d78c40213a03ba78f454e6494f8ae11b8ab7a363ca445177int, 0x80cf1db1bf0ce1045011bce31368d0acc4f822b5458e20bfff4d4c37584e73dint);
    let e = squared_times(e, 0x80cf1db1bf0ce1045011bce31368d0acc4f822b5458e20bfff4d4c37584e73dint, 0x53d4ab3fd4f91c7f159688dc3266610ce24fe521af927feff9e30453ae0cc63int);
    let e = squared_times(e, 0x53d4ab3fd4f91c7f159688dc3266610ce24fe521af927feff9e30453ae0cc63int, 0x1ea3f55b35e537f7431aa81b5cbe0413318bf3dbf328e28ffe4081793051e19cint);
    let e = squared_times(e, 0x1ea3f55b35e537f7431aa81b5cbe0413318bf3dbf328e28ffe4081793051e19cint, 0xb2de54701fdcb31a1982a49024d60052006255417f67703d2b8d6d40f223c57int);
    let e = squared_times(e, 0xb2de54701fdcb31a1982a49024d60052006255417f67703d2b8d6d40f223c57int, 0xddfba07e4632b6db6ce0d0b311330e81a3f525cbf80bbbf247bf271f296088int);
    let e = squared_times(e, 0xddfba07e4632b6db6ce0d0b311330e81a3f525cbf80bbbf247bf271f296088int, 0x1aa715e1e4e46cc576ef5e2752edaf136d752bdb81ba0f9612057bb192cc008eint);
    let e = squared(e, 0x1aa715e1e4e46cc576ef5e2752edaf136d752bdb81ba0f9612057bb192cc008eint, 0x2efca827b124860a52d3ab93e76e4281ed5bfb2a028cd9f708d6e39d35931c98int);
    let e = squared(e, 0x2efca827b124860a52d3ab93e76e4281ed5bfb2a028cd9f708d6e39d35931c98int, 0x1d5477879886bab20d36a78b4c7712fce937f21cdfbf306ce1f82734924104c8int);
    let e = squared(e, 0x1d5477879886bab20d36a78b4c7712fce937f21cdfbf306ce1f82734924104c8int, 0x110151292720e057b7ef13fcc85486bf3333b5e281464c51486f5407eb2663a0int);
    let e = squared(e, 0x110151292720e057b7ef13fcc85486bf3333b5e281464c51486f5407eb2663a0int, 0x1acb001f46b2baad20b73e02ecd613e710c2abc23c7fd8659241a0c809dd4c91int);
    let e = squared_times(e, 0x1acb001f46b2baad20b73e02ecd613e710c2abc23c7fd8659241a0c809dd4c91int, 0x27f66fde50f540b4a616e82e526c09361c1cd68c8ceefb89fc654e4e6f68d5a3int);
    let e = squared_times(e, 0x27f66fde50f540b4a616e82e526c09361c1cd68c8ceefb89fc654e4e6f68d5a3int, 0xc602679a43bf044f37170f57c185cb04f12cd0e90db6e6ae9e8e5502aaa19b6int);
    let e = squared_times(e, 0xc602679a43bf044f37170f57c185cb04f12cd0e90db6e6ae9e8e5502aaa19b6int, 0x25e02f69081b61ede474a6f82b6ab742293800d9c90c2ba4ab10aff232fdf229int);
    let e = squared_times(e, 0x25e02f69081b61ede474a6f82b6ab742293800d9c90c2ba4ab10aff232fdf229int, 0x6aca8829c1461d5aaff1d2bf78a8b7616a3169e22c1085030080928eeea9826int);
    e
}

proof fn powers_14() -> (e: nat)
    ensures
        e == 0x183227397098d014dc2822db40c0ac2e9419f4243cdcb848a1f0fac9fnat,
        pow(GENERATOR as int, e) % field::modulus() == 0x12ea5df4f092ab3a28135b8914a7d1b6a547e15dae65e43215f181557d9f0968int,
{
    let e = powers_13();
    let e = squared_times(e, 0x6aca8829c1461d5aaff1d2bf78a8b7616a3169e22c1085030080928eeea9826int, 0x26973797c1a7e3702a49d76681beb095bcc670f252182d48449010eb669633e5int);
    let e = squared(e, 0x26973797c1a7e3702a49d76681beb095bcc670f252182d48449010eb669633e5int, 0x10e00b8e1537f537d4293bec586f423bcf481e3d0449875ad5e1c703fea45a0eint);
    let e = squared_times(e, 0x10e00b8e1537f537d4293bec586f423bcf481e3d0449875ad5e1c703fea45a0eint, 0x22745ac53a23049a102344a3d4d406228e74d086e1ddc11c979de74b9eb3988eint);
    let e = squared(e, 0x22745ac53a23049a102344a3d4d406228e74d086e1ddc11c979de74b9eb3988eint, 0x1b7c74aef8370e2eda51a8c1fe0ca5ab263f0afc9b83451840c48e1d57e1dc9bint);
    let e = squared_times(e, 0x1b7c74aef8370e2eda51a8c1fe0ca5ab263f0afc9b83451840c48e1d57e1dc9bint, 0x2176eec8460e7c636c53c3f59ac1c2498bb3b6439f6f81c35c19b44681049e46int);
    let e = squared_times(e, 0x2176eec8460e7c636c53c3f59ac1c2498bb3b6439f6f81c35c19b44681049e46int, 0x1091ec3b02d42ff6a0c44adafa02f573a11da7a39ecfe61f92130a9ed29863c9int);
    let e = squared(e, 0x1091ec3b02d42ff6a0c44adafa02f573a11da7a39ecfe61f92130a9ed29863c9int, 0x262903e30cfc35ba49e8767137920234d738a060c6f8fb07d54ffa0b42395530int);
    let e = squared(e, 0x262903e30cfc35ba49e8767137920234d738a060c6f8fb07d54ffa0b42395530int, 0x1bea7a0c010925bfa6116b61b3216acdc19e15f0eb3fb5534184e1a5185b153int);
    let e = squared_times(e, 0x1bea7a0c010925bfa6116b61b3216acdc19e15f0eb3fb5534184e1a5185b153int, 0x177550a3bb2734343f6a03da75f8cf7b4b6ef06ecdea111ff4bef79ac5c8105bint);
    let e = squared(e, 0x177550a3bb2734343f6a03da75f8cf7b4b6ef06ecdea111ff4bef79ac5c8105bint, 0x2f305c3d79127b16536d83a90af48defd6ebfb4556f4097997cfde218b16d446int);
    let e = squared(e, 0x2f305c3d79127b16536d83a90af48defd6ebfb4556f4097997cfde218b16d446int, 0x282b9167655ecc3efbdf61b78d0d4eef01e9b58eff486d15ab57f332cf782fd2int);
    let e = squared_times(e, 0x282b9167655ecc3efbdf61b78d0d4eef01e9b58eff486d15ab57f332cf782fd2int, 0x1596c75fd5cfbc6ff42c4b6e28fe3e43922fec0160aee318134c98b765ea490int);
    let e = squared_times(e, 0x1596c75fd5cfbc6ff42c4b6e28fe3e43922fec0160aee318134c98b765ea490int, 0xb2b319618ea84f76b481c37e4aec09ea0beb80904d589e2a38e43eec8406b5bint);
    let e = squared_times(e, 0xb2b319618ea84f76b481c37e4aec09ea0beb80904d589e2a38e43eec8406b5bint, 0x2e8f59f50fa59c8e9a14eede9e7e4611bafe36237fd720acada872d2ab96441eint);
    let e = squared_times(e, 0x2e8f59f50fa59c8e9a14eede9e7e4611bafe36237fd720acada872d2ab96441eint, 0x1195e6f951efc1c565d83e4ff70b15dc57b7dba8ff1c065eaf5f6358e3e916b3int);
    let e = squared_times(e, 0x1195e6f951efc1c565d83e4ff70b15dc57b7dba8ff1c065eaf5f6358e3e916b3int, 0x12ea5df4f092ab3a28135b8914a7d1b6a547e15dae65e43215f181557d9f0968int);
    e
}

proof fn powers_15() -> (e: nat)
    ensures
        e == 0x183227397098d014dc2822db40c0ac2e9419f4243cdcb848a1f0fac9f8000nat,
        pow(GENERATOR as int, e) % field::modulus() == 0x6fab49b869ae62001deac878b2667bd31bf3e28e3a2d764aa49b8d9bbdd310int,
{
    let e = powers_14();
    let e = squared_times(e, 0x12ea5df4f092ab3a28135b8914a7d1b6a547e15dae65e43215f181557d9f0968int, 0x2a3c09f0a58a7e8500e0a7eb8ef62abc402d111e41112ed49bd61b6e725b19f0int);
    let e = squared(e, 0x2a3c09f0a58a7e8500e0a7eb8ef62abc402d111e41112ed49bd61b6e725b19f0int, 0x49ae702b363ebe85f256a9f6dc6e364b4823532f6437da2034afc4580928c44int);
    let e = squared(e, 0x49ae702b363ebe85f256a9f6dc6e364b4823532f6437da2034afc4580928c44int, 0x1067569af1ff73b20113eff9b8d89d4a605b52b63d68f9ae1c79bd572f4e9212int);
    let e = squared(e, 0x1067569af1ff73b20113eff9b8d89d4a605b52b63d68f9ae1c79bd572f4e9212int, 0x2a734ebb326341efa19b0361d9130cd47b26b7488dc6d26eeccd4f3eb878331aint);
    let e = squared(e, 0x2a734ebb326341efa19b0361d9130cd47b26b7488dc6d26eeccd4f3eb878331aint, 0xc9fabc7845d50d2852e2a0371c6441f145e0db82e8326961c25f1e3e32b045bint);
    let e = squared(e, 0xc9fabc7845d50d2852e2a0371c6441f145e0db82e8326961c25f1e3e32b045bint, 0x210fe635ab4c74d6b7bcf70bc23a1395680c64022dd991fb54d4506ab80c59dint);
    let e = squared(e, 0x210fe635ab4c74d6b7bcf70bc23a1395680c64022dd991fb54d4506ab80c59dint, 0x1ad92f46b1f8d9a7cda0ceb68be08215ec1a1f05359eebbba76dde56a219447eint);
    let e = squared(e, 0x1ad92f46b1f8d9a7cda0ceb68be08215ec1a1f05359eebbba76dde56a219447eint, 0x1ded8980ae2bdd1a4222150e8598fc8c58f50577ca5a5ce3b2c87885fcd0b523int);
    let e = squared(e, 0x1ded8980ae2bdd1a4222150e8598fc8c58f50577ca5a5ce3b2c87885fcd0b523int, 0x26125da10a0ed06327508aba06d1e303ac616632dbed349f53422da953337857int);
    let e = squared(e, 0x26125da10a0ed06327508aba06d1e303ac616632dbed349f53422da953337857int, 0x2260e724844bca5251829353968e4915305258418357473a5c1d597f613f6cbdint);
    let e = squared(e, 0x2260e724844bca5251829353968e4915305258418357473a5c1d597f613f6cbdint, 0x19ddbcaf3a8d46c15c0176fbb5b95e4dc57088ff13f4d1bd84c6bfa57dcdc0e0int);
    let e = squared(e, 0x19ddbcaf3a8d46c15c0176fbb5b95e4dc57088ff13f4d1bd84c6bfa57dcdc0e0int, 0x1bf82deba7d74902c3708cc6e70e61f30512eca95655210e276e5858ce8f58e5int);
    let e = squared(e, 0x1bf82deba7d74902c3708cc6e70e61f30512eca95655210e276e5858ce8f58e5int, 0xeeb2cb5981ed45649abebde081dcff16c8601de4347e7dd1628ba2daac43b7int);
    let e = squared(e, 0xeeb2cb5981ed45649abebde081dcff16c8601de4347e7dd1628ba2daac43b7int, 0x2d1ba66f5941dc91017171fa69ec2bd0022a2a2d4115a009a93458fd4e26ecfbint);
    let e = squared(e, 0x2d1ba66f5941dc91017171fa69ec2bd0022a2a2d4115a009a93458fd4e26ecfbint, 0x2d965651cdd9e4811f4e51b80ddca8a8b4a93ee17420aae6adaa01c2617c6e85int);
    let e = squared(e, 0x2d965651cdd9e4811f4e51b80ddca8a8b4a93ee17420aae6adaa01c2617c6e85int, 0x6fab49b869ae62001deac878b2667bd31bf3e28e3a2d764aa49b8d9bbdd310int);
    e
}

proof fn powers_16() -> (e: nat)
    ensures
        e == 0x183227397098d014dc2822db40c0ac2e9419f4243cdcb848a1f0fac9f8000000nat,
        pow(GENERATOR as int, e) % field::modulus() == 0x30644e72e131a029b85045b68181585d2833e84879b9709143e1f593f0000000int,
{
    let e = powers_15();
    let e = squared(e, 0x6fab49b869ae62001deac878b2667bd31bf3e28e3a2d764aa49b8d9bbdd310int, 0x931d596de2fd10f01ddd073fd5a90a976f169c76f039bb91c4775720042d43aint);
    let e = squared(e, 0x931d596de2fd10f01ddd073fd5a90a976f169c76f039bb91c4775720042d43aint, 0x27a358499c5042bb4027fd7a5355d71b8c12c177494f0cad00a58f9769a2ee2int);
    let e = squared(e, 0x27a358499c5042bb4027fd7a5355d71b8c12c177494f0cad00a58f9769a2ee2int, 0x6fd19c17017a420ebbebc2bb08771e339ba79c0a8d2d7ab11f995e1bc2e5912int);
    let e = squared(e, 0x6fd19c17017a420ebbebc2bb08771e339ba79c0a8d2d7ab11f995e1bc2e5912int, 0xf1ded1ef6e72f5bffc02c0edd9b0675e8302a41fc782d75893a7fa1470157ceint);
    let e = squared(e, 0xf1ded1ef6e72f5bffc02c0edd9b0675e8302a41fc782d75893a7fa1470157ceint, 0x7b0c561a6148404f086204a9f36ffb0617942546750f230c893619174a57a76int);
    let e = squared(e, 0x7b0c561a6148404f086204a9f36ffb0617942546750f230c893619174a57a76int, 0x16e73dfdad310991df5ce19ce85943e01dcb5564b6f24c799d0e470cba9d1811int);
    let e = squared(e, 0x16e73dfdad310991df5ce19ce85943e01dcb5564b6f24c799d0e470cba9d1811int, 0x1418144d5b080fcac24cdb7649bdadf246a6cb2426e324bedb94fb05118f023aint);
    let e = squared(e, 0x1418144d5b080fcac24cdb7649bdadf246a6cb2426e324bedb94fb05118f023aint, 0x9c532c6306b93d29678200d47c0b2a99c18d51b838eeb1d3eed4c533bb512d0int);
    let e = squared(e, 0x9c532c6306b93d29678200d47c0b2a99c18d51b838eeb1d3eed4c533bb512d0int, 0x21082ca216cbbf4e1c6e4f4594dd508c996dfbe1174efb98b11509c6e306460bint);
    let e = squared(e, 0x21082ca216cbbf4e1c6e4f4594dd508c996dfbe1174efb98b11509c6e306460bint, 0x2b337de1c8c14f22ec9b9e2f96afef3652627366f8170a0a948dad4ac1bd5e80int);
    let e = squared(e, 0x2b337de1c8c14f22ec9b9e2f96afef3652627366f8170a0a948dad4ac1bd5e80int, 0x30644e72e131a029048b6e193fd841045cea24f6fd736bec231204708f703636int);
    let e = squared(e, 0x30644e72e131a029048b6e193fd841045cea24f6fd736bec231204708f703636int, 0x30644e72e131a029b85045b68181585d2833e84879b9709143e1f593f0000000int);
    e
}

/// The generator raised to half the group order is minus one.
pub proof fn lemma_generator_half_order()
    ensures
        pow(GENERATOR as int, ((field::modulus() - 1) / 2) as nat) % field::modulus() == field::modulus() - 1,
{
    let e = powers_16();
}

} // verus!
