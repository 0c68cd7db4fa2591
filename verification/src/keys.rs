use vstd::prelude::*;

verus! {

// The zobrist keys: fixed pseudo-random words, one table per kind of key. The en
// passant key of square 0 is zero, so that "no en passant square" hashes to nothing.

const PIECE_KEYS: [u64; 768] = [
    0xa624a8eda2a82089, 0x6ffb2144ab845edd, 0x02d3d9b6d4ae0826, 0xbca369b0ba95e813,
    0xb34742a7c1f5fb43, 0x10becb5f878197f2, 0x2b3aa8499626cfb4, 0xd58e3eb5acde69d9,
    0x3bc8ae105c23fae5, 0xa58580133d9a2ae5, 0x3e69e5510a9e63a7, 0x6f8ac6b0aa192f8c,
    0x397e5e0c166340d4, 0x9722053b2276d0f6, 0x7809c08d1b4de43e, 0xa15745b87f11b5ca,
    0x1ea6b5d6180d076a, 0x8c8a850ed50f8b85, 0xf2fa8cdf2d0cb0fd, 0x0f1037141f6771ab,
    0x64048d5017902aca, 0x37ca59c3757ffb4e, 0x31592f5cde24926c, 0xfdec5046b0f8ad74,
    0x9cadf08e5758860b, 0xcd5c685accd740e5, 0x0a4af85bd1dff009, 0xd859be3566678ca7,
    0xdf80001422959bce, 0x42389de10107be8b, 0xd7e23771c50a62c7, 0x680ae2d33122b5ad,
    0x122a8086a4043dc9, 0x7f070d0afcfc54f0, 0x432889e38b82a64d, 0x9002a1c5433df730,
    0xd6fc5a72ba8ab30a, 0xecc1c7c95da5257b, 0x5952b5dc765cbbfe, 0x839eb4ee9e566f3a,
    0x5ebf2ad1745aa477, 0xb4db2f8c6681d4d3, 0x384e2e2f42f84f70, 0x4e2dba727ad87d86,
    0x52dd265bbcc9efa4, 0xceb3a6dd9931de98, 0xe8a8800358e24217, 0xc7cf6984cd70e514,
    0xb3e588e140005284, 0x98ded4767bce6f68, 0x1bccd1ab7553cd76, 0x1efe50511df03628,
    0x4bc6e945de07e87c, 0x18bfa0fb5a8b956f, 0xab47587cc5bc53d4, 0x4788f890d69ee2be,
    0x0f79b874368c2764, 0x01881f51ad42e7e8, 0xcedb0eff98656655, 0x8e9e4be0dbea8312,
    0x88df714b14f16b9b, 0x22de6bd5a6ce2b23, 0x1a00e506ba394ece, 0x7e1eb9730821fe78,
    0x61a9d2cc7a714323, 0x763d362cf8d0b469, 0x387afbffb119ce67, 0x82b58b642115367a,
    0xea41d24ccaaf0516, 0xe11b8793875f5dd5, 0x9e13d34ce5770e19, 0x0052fbf9adc86574,
    0xf970c1e431600a14, 0x1933df246c0977a2, 0xf322972d99341207, 0x48f2bf9c4c5d9e13,
    0x4e41ec5f433a5de2, 0x07f691f66627de67, 0x918f3359d560b031, 0xc7a36766765c05ee,
    0x3253198e631f587e, 0xf6b6da02a1c26da7, 0x2bbaa64a394109f1, 0x0c7cb69f99f35a4e,
    0x94bc95a9e53937fb, 0x37a6d784d6a7db22, 0xc7c445451cce34d3, 0x7aad41a5e2659f04,
    0x4892638a680b6b7d, 0x43605beb1a917e43, 0x6a85c1ec3ce6f664, 0xc873f3bb6d203bff,
    0xe8a5bfb46747f24f, 0x0262bd1a279a3b78, 0x61164fc464b479e0, 0x1f8858802db48cfe,
    0x881273b48c3909f5, 0xfc2229c1c2e7a2f4, 0x9a259d5fb953d7a2, 0xf56ad26674bdd0d0,
    0x4f8d6a8285977204, 0x7137bbb472130c37, 0x14517cae8e43a39c, 0xc9a5dbecbc89db56,
    0x51c7d44396bc4f83, 0x536998c132b3ee43, 0x773121c2de8e9246, 0x419506600841a95a,
    0x3fb1e0e080ba246a, 0x8cb19c1b81bf345d, 0xc6698af4af083e91, 0xb25116c5cd13746d,
    0xa9601d6c6de1f99f, 0x4bfd6efedc1ae093, 0x5959df911b304f90, 0x3a92894bbd5e6dea,
    0x6af5b32a1c03c569, 0xe645ee8397d2652a, 0xda94e8b2346a61cc, 0x875492e576acb362,
    0xd7bbbf1078dc36df, 0x915787ab4b818d26, 0xc0ae2a7eff6b294c, 0xd1c5bd72f74ef3a1,
    0x5240b55f74bb63bd, 0x1a93a4c17665daad, 0xb044c62d60895a4f, 0x3134aa870a29476b,
    0x6b9fd99c8992497f, 0x2ec82a06649d24e5, 0xb7028d0dc8e6ce76, 0x1639d413eb5afa3b,
    0xb0c942183f7c1814, 0x50e3eafcc03efbda, 0x3eb52369e83e3ae8, 0xc7d9f8b408f7cb17,
    0x59c4d582335a7e30, 0x56e97daddf567ab9, 0x897e2d73426fc9fc, 0x7d58312066546d0b,
    0x9bf3999e47d5bef4, 0x89db53a41dca2f30, 0x8d4c91470abb261f, 0xf692c0c12fdbb06c,
    0x57e4589b051d614a, 0x71b420b2675885c0, 0x4ed5359f7e190f75, 0x740bbbd306a38bf2,
    0x0f4fb5b1b4463903, 0x5eccf87e4915be8e, 0xb5bf4402f7f7e4c8, 0xc9ce61d7a9b0e631,
    0x0e82aa767fd5fa48, 0x7079ec8eac02e2fc, 0x4317d75004f51b8b, 0xa7eb635f441340d5,
    0x39fa17a962c3848f, 0x4daa49a09271dae8, 0x853a973ea86a1b63, 0x5f7b0c7a218968cb,
    0x4754001d790eeb5e, 0x2d484a42e7b8e100, 0x5d834298539614e3, 0xb4994faeede2a9af,
    0x385c665f7a5046cc, 0x74840af515c13097, 0xf2d649ea773cf1e4, 0xc1087b7e94d45e97,
    0xc650e0367bb8cf48, 0xcc4f083b9dc14db8, 0x2a2631c9b7a208f6, 0x074a27a3e74fa9b9,
    0x2082fbbe0d8a95dd, 0xa06627fdd4f6a0bc, 0xceb0b4c48d5c5b32, 0xd1db35d5328336d9,
    0xabcf05048a406724, 0x16f89d477cb5a2ee, 0xfc7e8039f66ba741, 0x78554e3aea585e9d,
    0xa0b2077769bfad96, 0x356e2be6ffb2919b, 0xd550e1405d83d2c1, 0x6c81961535fa24bb,
    0x8cf4f6f0f10d0485, 0xe5c11a9acff906a6, 0x101815a9b5cbca5c, 0x52fb2e8ccb9be6d1,
    0x6bb12592b3735fa9, 0x31717e7c2f5fe78a, 0xb57e7eb67b4cfff2, 0x5919e0ba4f396784,
    0x135963cf957a9d7c, 0xed7e8a412eeeffdd, 0x4700a988c561ea29, 0xb56129870f6df38e,
    0x88a69ab2c18c226f, 0x8842a8eb4c176cda, 0xcb55391801eb7843, 0xcc2c6a079a217415,
    0xac8c22e8fd11b1f0, 0x7cdadab0e82ab215, 0xa9a8df6c1dcc9075, 0x6ad604cab4a62a86,
    0x2d1fa2905787013c, 0xa88599c2af2c966a, 0xc1ddaf4d01eb19c8, 0x1d43d0c9af77414a,
    0x5b8dd88377e88e50, 0x9b0485c0d03e38d8, 0x4eb55068c97bf23a, 0xefcae48cd9126da3,
    0x30b85e6cbeacc14f, 0xc410c630b3107b19, 0x35aebd24d9b1004a, 0xb1d7e932e4da2ce6,
    0xd347c071cc210819, 0x78e227a3c96be96b, 0xd53beefa878ddbe0, 0x4e4cf4efc943c03a,
    0x874984d693be9dd7, 0x2d83e5dbc4af72c8, 0x72d32a12ed1f0062, 0xe39b8efe8a85e2e2,
    0x3312d6dec4927483, 0x660e94279886bfa3, 0x0b54ed615fbd54c2, 0xa6b4a3fcf857f1de,
    0x4c4fcd0e50bcb51d, 0x0f1a568d759be238, 0x1b61032295ce6611, 0x264b51d5b3b808e4,
    0xdcb97ca82b851cb1, 0xf573fc730d3f83f3, 0x81c74390009aa5c0, 0x8fb0aad6b25034e1,
    0x672f73d5de0d7d51, 0x562f7365e50c7c88, 0xb071b8328f655b3d, 0xc4d29d3540d734f0,
    0xe6ed9ac72011c76e, 0xe58e7bf2464a09bb, 0xf94215614e8533cc, 0x96ffd5ef941d4f61,
    0xe67a1bba99cb9b0b, 0x92abb4d004de7fb5, 0x8542362670e01a4d, 0x8ee407c9a588e99c,
    0xc03f4b78db4f0559, 0xa7c987a469e80859, 0xe054ceaffa3195ab, 0x2b2432cd31f4d39c,
    0x63b0a8e9b9730d93, 0x98d89fcf171bce69, 0xc3b4eab3c42de5a3, 0x2d15bb78bcdc753f,
    0x8b417f7785133ba1, 0x1804059da89b40ac, 0x5007151d7370f42f, 0xfa0c968642a59294,
    0x30ba5582cf4efa48, 0x74bbe6369371210f, 0xd31e481071f75c01, 0x81bf42dbb3c8d1e0,
    0x07bf4402dce2cf65, 0xe08e4497c2f1676b, 0x9621b86a6c875827, 0xa712e0dff1f75f55,
    0x146bb64d371ce927, 0x3e6ee3b0dd0980f2, 0x01dfba9e3b5c8602, 0xcb580acf624df47c,
    0xe2e94abde3013ec3, 0x04565863758cdf36, 0xc4c8a1392d38e279, 0x11d40603cf7d6464,
    0x77090610c139b35d, 0x2f210fbc227e1d6b, 0x6dd52929403d2096, 0x6455e85a1f191c5e,
    0xbb5ce60202f53eb8, 0x6a364f80afca3682, 0xe7103be0ec8b0ed3, 0xc10a7090e5366590,
    0x76fbc0305bd9955e, 0x2afffd0f358711f3, 0x1a4e9a20e0b0f5f0, 0xd3b2a3d0f78c6ec5,
    0xb8ee988a06101bdd, 0xe37c716d3ffc237b, 0x27eea0f4b5e8c45d, 0x42f9074e96214229,
    0xb822036f93e6951e, 0x65f40dcbaaf6248e, 0xd4bd04081ea3b1df, 0xa9aed259cdcb14dd,
    0xc2eacb3384b5cd03, 0xfaf267be8d372720, 0x623044bf6aa9477b, 0x57c75d0ba47f22fb,
    0xaccfafc1a6e8fbd6, 0x937530911a0a4021, 0x5206ac26196adee6, 0x351eb426e2ebc4d8,
    0xf4f496611186ead8, 0x57a6060cc34e4c99, 0xfbc4a4f02c2aae83, 0x48cd535fcaed8f8b,
    0x6f89eda545f1f007, 0x4741a853413b5110, 0x5060976d723ab01c, 0xeb622bca296c2f3d,
    0x8e54902db83a08af, 0x56ee1d7eb77a9b4b, 0x1f53ebb903d7750b, 0x927472d2900c7a00,
    0x5bd39bf35339eacb, 0x2d25e89e86691987, 0x8ee20afc758f6d34, 0x68038481eb5ce2dc,
    0x7024428ab3582e45, 0x2ae113d23fb444ba, 0xbd3ec08b9460e8af, 0xd23cd7e1b0ecb70f,
    0x502077dd7af90018, 0x0ab6c3550d79039d, 0x56be5f36974c43dd, 0x907f0d9a4d87bcda,
    0x7f1a5dfdd579cd7a, 0x6fd377ddec4a21b5, 0x876f78fd51f91d55, 0xeee451156e6526a9,
    0xe0bd8e141e6b7806, 0xfb9cf8decaa60576, 0xbfe687eb1d29253d, 0xc7a720c0ad9b07f0,
    0x3129dd3fe63561f7, 0xa4f1b608abff5fe4, 0x47b5b81f8ce42537, 0xac23a340eea0e10e,
    0x2059ddf09ff2edf6, 0xe9332445d6555495, 0xa80f632fd6ac4262, 0x3479abcba80ee158,
    0x62f886bf1a842e91, 0x76ec373fccc3e8ee, 0xd889d2c0ea5fb57a, 0x016220180878bba1,
    0xf92eb04104820247, 0xce188a6cda4ee0b8, 0x75eda65052040544, 0x4bf6112965dcc723,
    0x62ca4b889d8d6a66, 0x36503078587e6f0e, 0x9f9f99b704361804, 0x5294d3110565d9a8,
    0x378e9f16df30d3eb, 0x40266639bbd3d976, 0xed57967114925af9, 0x1f38905a7438354b,
    0xa1f7dcdf0dc8e794, 0xf2f0ac3b3dd29edf, 0x6b9892280861b96a, 0x169fd956a99c9174,
    0x4cf862f6a7ec7542, 0xdb7be083a1e7fbe4, 0x7d83b73d9ff4602e, 0x8b367f41afc5300e,
    0xefaef868f887c25d, 0x226109b097ed3c68, 0x951197a0682a7cf9, 0x78f4a4f81eb68cae,
    0xd62cc58a45579b38, 0x3fef0febe3f59b0e, 0x2eefb012f447f7d4, 0x6c324b6fceae122a,
    0x514c63f6547ed9df, 0x10e0db71bb6d9788, 0xc947c85ebe7f0a22, 0xd9b830682909f20c,
    0x00d88a68260a4703, 0x5db9458ba4598d8e, 0x627b03fa31d34251, 0x88b1ac2d4405b06e,
    0xb0750708bdb4ecb3, 0x4aa59a21d6bf4c93, 0x8534111a02cc6d76, 0xdc73f3ca96986bf5,
    0x14b742a0c48fdca0, 0xf737e5a29ff7d22c, 0x27fd5af969a130ab, 0x8e5ebce184a2887c,
    0x7f891c726960cb8f, 0x070e5897de34893d, 0xc71d5a30ee671b37, 0xe2595a0d20b7877e,
    0x8e052abcec79a62b, 0x1267a0a4ccc1828b, 0x1b5d7d156fa2a023, 0xef5c4e9b64317135,
    0x09c86c9c0cfe2363, 0x64d74dacda010684, 0x2d12fb5da7dc2155, 0x33d7a7accfed51c0,
    0x1ecb25df68ef9325, 0x3ee1f57c13064417, 0x68f82c195c7673c3, 0xc3a5dd79cda0cf6d,
    0x56762f46eea68669, 0xa775a4ce24de6ccf, 0xa4ed5482669b3b24, 0x9d404d0996b6258b,
    0xdcee0ad4cd174bba, 0x75005e68323a55e9, 0xd817539546052e5f, 0x4ab6c7c6d79bc7e5,
    0xdd2dc069b41f9a05, 0x8ce1b8611e32ee6c, 0xb13dd63331a5e239, 0x42352edb0a1060b4,
    0x288bbca9070988eb, 0x3916dd49fee8e9fe, 0x5f6efb422dc71895, 0x23cf744b5b9ec68e,
    0x3d0e9071c78e998d, 0xf5cccab9e2d16841, 0x3123e3d0b8b23874, 0xc22791039eb36ff3,
    0xf093036810ef95ce, 0xd341a716ff9eb271, 0xc3cea69aba4f8f2d, 0x65f5814b73621bfd,
    0x0e5693064a3518db, 0xe2502e34e8939bc9, 0x053d9ea34aa5d9cb, 0xf815eca381a7dc24,
    0xde5ffc6120858048, 0x8f75f77ae6450acb, 0x7cbe780cec3e1f44, 0xe0bfefe0fc74ef57,
    0xfea0c60cf326d21c, 0x2e9a82c654f69d5d, 0x6c7fd51583eaafc7, 0x6ed874b90fd9af09,
    0x79e38f5fc864bf8a, 0x1e523c8d35cacef4, 0xc89247d9c4c9c9f1, 0x82a6a292fd9566fb,
    0x05919fdc47d787cf, 0x03f8d350cc6b3720, 0xa4792680aa93b8c2, 0x37eca9c09b7ed53d,
    0xbfd13fa2bdf25e08, 0x0544136820639298, 0xaaf19579bb838ea4, 0x1200374e19211566,
    0x88ac69e5a1de3aac, 0x693aabfc9e3ce028, 0x8c697c46c193f5b3, 0xfe91150a4c04bdb0,
    0x1aba94676336f676, 0x2daf15ca495cc701, 0xb66881c19289d251, 0x804bfa66923ea232,
    0xd0ba6a108e401627, 0x657a0549b7c35448, 0xf96c88e47d6a2d33, 0xbc10b4ca41c1de82,
    0x6effd7a164862619, 0xe59f0ab4f31506dc, 0xf26575be9d920fca, 0x5ecd20514e4c7d04,
    0x50a101eac95ae24f, 0xc94dbbe4b69c40e1, 0xe96c981d4001de04, 0xbe228a27a125f866,
    0x9a523acb3ead311b, 0x30f9155bda2763b8, 0xba3d781fdce06361, 0xc8459ff5e6e42db1,
    0x82b76dc41d0ef9a5, 0xf3ffc84706ef3573, 0x1e52ef3e4546f815, 0x4d62e1f201e48dc2,
    0xb701b3ca83e150b5, 0x4c1edbe44361c066, 0x5fecaa002d8f192e, 0x75630e8124e9008c,
    0x3fb778a2eca6211c, 0x77be513caf3a5404, 0xd0ca2a03bf9649e2, 0x2a462067ad21bcd8,
    0x8dc5b40b598336fd, 0xbdeb558d0b3880d7, 0xb4459c44abadb1a8, 0xb417a1f327dd89ce,
    0x3c59fb3572476fa3, 0x85f63e465cea6bfe, 0x1e7e18de0e45d5c4, 0xe270958e6a4714bb,
    0x53cdb545980d3d7a, 0x335644a4b010a0df, 0x28840fa4974a5b3a, 0x50920d08c1a38a8b,
    0x0518a4d32af3721a, 0xec58943f9014f3f2, 0x928a57a8e9e2614d, 0xe700f34a27c65881,
    0xbce230eccc440122, 0x245c8a9b1f858f57, 0x52c1bb5136faf4ec, 0x234ee4a33f37747e,
    0xd721f94617b56f72, 0xaed25fb2f0bd64ae, 0x5fc329cbcd5ab3f2, 0x1b7a75cff5d6f842,
    0xaa71059c320c6d40, 0x18009631b5657edd, 0x1ba3f83c7d94ce60, 0x0a1fc345fa7db9ac,
    0x98c5c8c9f86ecffb, 0x84e6cb22b7d02911, 0xbd641057ad4fb245, 0x2fb9579ee85fac1f,
    0x6064788a7ed5b42e, 0x25003e130817b951, 0xe67f6ec4be19a4c9, 0x10f4803f1d9b6d3d,
    0x598c3517c33f5860, 0x6be375861a4bc117, 0xc186b5d52dc7cb6e, 0xecee634d78e930b1,
    0xd4de5f38e2c6d253, 0x684882f1ba41c8d1, 0x1238c8f69cac3475, 0x45aebd8d93e519e1,
    0xe323e6524077b80d, 0x9fb97c664ed8773f, 0xf8043a4799d03e55, 0xe741a6760d148dd7,
    0xc0910cf481fee18c, 0x1c0a473b02d7a9eb, 0x65f100c40c83fcdc, 0x0a435820af874247,
    0xbd3873ae11a3fc3e, 0x87492f5c12d0de30, 0x52557b23f335db54, 0x9fc3c30a331a9ec8,
    0x1bafb84e9805c232, 0xbe1238ef8a6a5c61, 0xdd8c8169b1da9947, 0x232eb4705f967de1,
    0x464341a03c21742c, 0x50a1ad918ec439b0, 0xdd32fab39533a237, 0x836003129d536db1,
    0xdaf69f190a06daab, 0x634ee030e5d5b006, 0x5cb2661934e6b6aa, 0xb24cea49a3083618,
    0x91e4a20529869cb1, 0x369c2cc9138cb943, 0x0595c1c864fcf8fe, 0xcff21a6d25e8b18a,
    0xa4708d6a4e38aef3, 0xd24c4fd06b457a54, 0x1a2ddf5322c9734b, 0xb68d215bf89a46a0,
    0xbd6e2eb8f3c8ebc6, 0x496f7095dd139c08, 0xd742c3fde2de04d7, 0x5a623a451929ea2e,
    0x05e815ae9ba4c612, 0x9c322531b8ac2255, 0xffd5c53e5fa602d9, 0xbdcaf0795ad6bb86,
    0xa643adc97de63c34, 0x6217b8d1358d047b, 0xd2087199281ce761, 0xe65f5593547c79bb,
    0x97a800bb74102976, 0x6b09d801b5df160e, 0x686e860ee1556f55, 0xfad5ef897ff22d41,
    0xf6b1a4da87b7fbf4, 0xbfc9e2b75ab34dd0, 0x26ed1a1c4dac4602, 0x50cca8a73278beb7,
    0x9aedd80b177ae6c6, 0xc8c39c8be9c1fdca, 0x55fe7a0342e62108, 0x9b896c56aa83dc5b,
    0x57db817c546e8402, 0x5adfc6f195b6d52a, 0xcfe615c42d962550, 0xadc9f2d103955f8d,
    0x3b8576e6adb562a1, 0xea5563bde7509363, 0xb36c9f78020b2eae, 0xb2ad792cbf3de996,
    0xbef57e9dac2795d9, 0x5f901fa846baec69, 0x555d9cde011a5024, 0x36155102b23ffba9,
    0x3cf62252e338ffc3, 0x0de81fc4d2c30f24, 0x6fb1780753817d42, 0x3fd462ef6ae1ff21,
    0xadb52ada4de80c12, 0x630275d6df44f880, 0x03c8929594c182c8, 0xee6b750cb1598e84,
    0xe890208599513b82, 0xb5f94481128fb62a, 0x8fb42ca80b414bd8, 0x0893675c2f8a6c87,
    0x8e5b5ce81f6b3660, 0xaee52a436eb35edb, 0x1a8e3e7fa7c59a7f, 0x70b8c3a0f4132a18,
    0x515fff8147c9bd18, 0x82b88a2e23c5441b, 0x03099af40949f53a, 0x1fb6cc77b7c0b974,
    0xb3d382d5043ad4fb, 0xac33ecf68bac7d44, 0xe7b4e941199662f4, 0xc54e59e8d6095116,
    0xb98706b220a3d050, 0x9dd141ac97daaf46, 0xd25ba16d04b37acb, 0x272bfd1091b868e1,
    0xffef5c83fec42c83, 0x1e5dc56c455804eb, 0x3a3a975de925f16e, 0x46ff6eaa2d142cdd,
    0xff70c39881a40385, 0x117f38d99e581182, 0x037a56507a5f9862, 0x1c8c25ce04fc71b9,
    0x87ee225ccd7576fd, 0xe8ccc3914d0c27f9, 0xcca59721532364ff, 0x44436a10c1f61637,
    0x47069a0858563e2e, 0x973f2a4c4ca436f4, 0x63fa89dbc0d1c99c, 0xf97e4c510135d87e,
    0x1afa0b1f5ce7ab6c, 0x5df41a298bcb4d44, 0x3129c48d1ed91cd8, 0x6b81bb84c756e0c7,
    0x15fb7fff62720145, 0x258c5b05ab3e62a1, 0x25fa28de779a7bf5, 0xee1f5e2f74675aa0,
    0x61052b2f9e15a8b7, 0x00ddca7aa65e1e87, 0x73c2c6c913ef6eb6, 0x6fde43b33959a704,
    0x6484d7fc663a1076, 0xd1cd030f2a69675a, 0xd55032bb5d4a76b6, 0x4ff6602aaa016c37,
    0xa9bcbd2e40bf30e1, 0xbd51ba0af4df1dce, 0x340619a873b9d0fd, 0x5fad589eaa75216e,
    0x3b29085197d5d1bb, 0x8037bb324c1ede82, 0x96e1cfce2b3b93df, 0x276f76906d935304,
    0xd8929a98c7777b86, 0x073ab863fa16fcfa, 0x01268c9f418fadc4, 0x9b41b7e42242c89e,
    0xb980e6c4507bf134, 0x7cd77c103797bff4, 0xd45efd087a7a5d7f, 0x03421b98f615152f,
    0xc7af32c6372248f4, 0xa2461b8cec6b962a, 0x9b98e9ecaac95acb, 0x3a99d62207f16d54,
    0xd95a6936cb2e3ab6, 0x138b6e868b18a166, 0x9027c48b67550467, 0x7d85db8346fdecaf,
    0x165c85e701c88507, 0xb2ba02e66cd068d7, 0xd0c05e0001c009af, 0xd7bc07a98acad725,
    0xa4cc9cd5123da6ad, 0xf7ffedeb17ff629e, 0xead1cb7ef24f0d11, 0x8d1e4dde9731d6c6,
    0x3ca1542e05aaa8c8, 0x8d9bbddfedc6d93e, 0x36616802151ef6dd, 0xfad20fff0f2a0c25,
    0x17b7996627faeb46, 0xb9ccbed2247a6a64, 0x0284fc942a013bcc, 0x688cc6e2fb9edac0,
    0x26f606ebbe497407, 0x6961e23aaa2d566f, 0x2998c28b68036081, 0xbda3c6f8e009e568,
    0x552fd723412e34e6, 0xc982542a88bc492f, 0xaeefeb896f97b846, 0x3c7b556acf28ac77,
    0x61f3b7918c692d8f, 0xf630aa9cb5b3fe33, 0x2093f2c14937efbc, 0x51677ff1f5567115,
    0xde35b93af77cc1b3, 0xd6bb5d0d742428e4, 0x213d9d51971e5e9c, 0x104e0e33eb72f80d,
    0xec9985a485356bb9, 0x0aa0b34bd904e521, 0xfee2cc7c9bfd91a0, 0x3d9884762f691522,
    0x31f5cf0dc2ac04d7, 0x447ca19c82dfb8b9, 0x855b0a581b3802a8, 0xa99858c891055234,
    0x812c08c59522736a, 0xefa340c36963b81d, 0x5dc9a9e3d21109b4, 0x39386783089e4817,
    0x96140bcdbdbe1815, 0xd55af3715c6e902b, 0x69030b3fc2ec5a3f, 0xb8f7c91f38c53776,
    0x1a3eef1706a55ee5, 0x962d6147194b7b5a, 0x0dc3bd9b566aa541, 0xfaaa7d1cd769a97c,
    0xe55f64ea3c00229d, 0x1befbe693789b007, 0xd09591e29f77c9fd, 0xf14546d4944b4129,
    0xb41d0d9a03b1c98b, 0x6215014f4da89322, 0x748292ff0998a777, 0xaf5ed4d9036f9d02,
    0xc744810f4b8c2bce, 0x4f58323c241a5b3c, 0x90e0d40d8e35b675, 0x007c54a98f141743,
    0xb29598d704ac2db2, 0xd72e78d6e68042fd, 0x00dbe7f17530bd21, 0x53c24735726c531a,
    0x413fbfab1a0347b0, 0x11e80c25e8b579a1, 0x09d785bd2d1bbf26, 0x482100e0c69bcdd5,
    0x6391f9a92dcd2da3, 0x4a3cc9d71b0e9a1a, 0x4eecf36e9d72b7c5, 0xb8edb46e2f085c4e,
    0xf6ea589d7c9179f5, 0x67b040b5e6f389a8, 0x4d72cf871da38b37, 0xe33de230c14d8184,
];

const ENPASSANT_KEYS: [u64; 64] = [
    0x0000000000000000, 0xde13f23b9dde759d, 0x2d87eb0b7c288a02, 0x2f434b62a99c0fe6,
    0xc7bd378b8834f474, 0x1598fb82a62250cc, 0x88bbfd82285ddd49, 0x4d4eff7f323abd5f,
    0xb9eed704998e89ad, 0xce962eb5217a7f6b, 0x31b1e40831a0e029, 0x9e5f76d4a9072abd,
    0x7bf129645ae9409e, 0x5772411465018636, 0xd71ad55735591090, 0xed1031c3a55e8c9a,
    0x891d8b85f63e8712, 0x1fc96385a1bf1c6a, 0x491e7bc7458f4e35, 0xcc057a3f2d844b2a,
    0xc4a930e9a6966dc0, 0xa89152a114e375f3, 0x2c5f9172c11e20d1, 0x5df7f6b564b8b2d2,
    0x6701692492790fca, 0x1db0b97ae6d29133, 0xfcda83c8646d6ffb, 0x1ab58f7af18a855a,
    0xfe3bfe779283600f, 0xe940719e94812208, 0xc81ba39b91d80e21, 0x01d713d25503c1cd,
    0x8b043a90591f619c, 0x3bb9dac283e85750, 0x89ca8eb94e94cf42, 0xefe63f2cd9c16398,
    0xfeb73411b55ba5c8, 0x54113cb572dbd9ec, 0x541d33e096477250, 0xfa2be64588ac8b19,
    0xf243a9b5480690c5, 0x17df7eba17184021, 0xcc2be4484c2010b3, 0xf0f52b3fd950062c,
    0x72ae188b64d25ac3, 0xe47d2fc75fdd5fe9, 0x266056cb8daeddeb, 0x98cf0d68bc2b5264,
    0x0c7cda9c180639b4, 0xc37d50a7095b9cb1, 0x6bc5ae34796a5496, 0x45ba64853a70b1be,
    0xe797ae7e3102ed78, 0x609908c50b39ca42, 0xff9c43fc2c84d146, 0x43e255094a5d1ffd,
    0x8154e66b0c5bf378, 0x8b6a8a1d5ce68e27, 0x772c7764954656f6, 0x29bf7390c0dc042b,
    0x139ceaf713eca7ba, 0xbc780c28351d2d63, 0xa42c7456e1182cbd, 0xa1a634f8954e7a45,
];

const CASTLING_KEYS: [u64; 16] = [
    0x93421eecdcf5e1d0, 0x0ffa8722dca406e3, 0x7786165b09848097, 0xa619e6c112d97df1,
    0xb96f0fa42e603c28, 0x5762120229866d37, 0x577a7dd62661c089, 0xb06dd743b6f13ead,
    0xaf55973031d4de1d, 0x4e9448c02a3f105d, 0x618db375b6a0bcb0, 0x3c69ea5c609bfbcc,
    0x850b1a709334437e, 0x5fd943e3b835ad82, 0xeb97aa09e455c851, 0x6d2db01d237cd6e5,
];

const SIDE_KEY: u64 = 0x601e8642209b5868;

/// The key of a piece table entry.
pub closed spec fn piece_key_value(i: int) -> u64 {
    PIECE_KEYS[i]
}

/// The key of an en passant square; zero for square 0.
pub closed spec fn enpassant_key_value(i: int) -> u64 {
    ENPASSANT_KEYS[i]
}

/// The key of a castling ability byte.
pub closed spec fn castling_key_value(i: int) -> u64 {
    CASTLING_KEYS[i]
}

/// The key of black to move.
pub closed spec fn side_key_value() -> u64 {
    SIDE_KEY
}

pub fn piece_key(i: usize) -> (r: u64)
    requires
        i < 768,
    ensures
        r == piece_key_value(i as int),
{
    PIECE_KEYS[i]
}

pub fn enpassant_key(i: usize) -> (r: u64)
    requires
        i < 64,
    ensures
        r == enpassant_key_value(i as int),
{
    ENPASSANT_KEYS[i]
}

pub fn castling_key(i: usize) -> (r: u64)
    requires
        i < 16,
    ensures
        r == castling_key_value(i as int),
{
    CASTLING_KEYS[i]
}

pub fn side_key() -> (r: u64)
    ensures
        r == side_key_value(),
{
    SIDE_KEY
}

/// The en passant key of square 0 is zero.
pub proof fn lemma_enpassant_key_zero()
    ensures
        enpassant_key_value(0) == 0,
{
}

} // verus!
